//! Properties of the memory profiler that span several operations.

use vstd::prelude::*;

use vstd::utf8::{
    decode_utf8, decode_utf8_encode_utf8, encode_utf8, is_ascii_chars, is_ascii_chars_encode_utf8,
    valid_utf8, valid_utf8_split,
};

use super::{
    after_alloc, byte_len, truncatable, truncate_spec, after_dealloc, alloc_fits, dealloc_fits, leak_of, leaks_in, lemma_pos_from,
    lemma_put_distinct, pos_of, profiler_inv, put, stats_after_alloc, stats_after_dealloc, stats_of,
    CategoryStats, ProfilerModel,
};

verus! {

/// A disabled profiler ignores allocations and deallocations.
pub proof fn lemma_disabled_records_nothing(m: ProfilerModel, bytes: usize, d: Seq<char>)
    requires
        !m.enabled,
    ensures
        after_alloc(m, bytes, d) == m,
        after_dealloc(m, bytes, d) == m,
{
}

/// With room for at least one event, recording an allocation or a
/// deallocation never takes the event log past its bound.
pub proof fn lemma_events_bounded(m: ProfilerModel, bytes: usize, d: Seq<char>)
    requires
        1 <= m.max_events,
        m.events.len() <= m.max_events,
    ensures
        after_alloc(m, bytes, d).events.len() <= m.max_events,
        after_dealloc(m, bytes, d).events.len() <= m.max_events,
{
}

/// The leak report is unchanged when one category's entry is replaced by one
/// that reports the same leak.
proof fn lemma_leaks_update(s: Seq<(Seq<char>, CategoryStats)>, p: int, e: (Seq<char>, CategoryStats))
    requires
        0 <= p < s.len(),
        leak_of(e) == leak_of(s[p]),
    ensures
        leaks_in(s.update(p, e)) == leaks_in(s),
    decreases s.len(),
{
    if p == s.len() - 1 {
        assert(s.update(p, e).drop_last() =~= s.drop_last());
    } else {
        lemma_leaks_update(s.drop_last(), p, e);
        assert(s.update(p, e).drop_last() =~= s.drop_last().update(p, e));
    }
}

/// Allocating and then freeing the same number of bytes in the same category
/// restores the current total and leaves the leak report as it was.
pub proof fn lemma_alloc_free_balanced(m: ProfilerModel, bytes: usize, d: Seq<char>)
    requires
        m.enabled,
        profiler_inv(m),
        alloc_fits(m, bytes, d),
        dealloc_fits(after_alloc(m, bytes, d), bytes, d),
    ensures
        after_dealloc(after_alloc(m, bytes, d), bytes, d).current_bytes == m.current_bytes,
        leaks_in(after_dealloc(after_alloc(m, bytes, d), bytes, d).stats) == leaks_in(m.stats),
{
    let s = m.stats;
    let st = stats_of(s, d);
    let a = stats_after_alloc(st, bytes);
    let s1 = put(s, d, a);
    lemma_pos_from(s, d, 0);
    lemma_put_distinct(s, d, a);
    lemma_pos_from(s1, d, 0);
    let q = pos_of(s1, d);
    assert(stats_of(s1, d) == a);
    let e = (d, stats_after_dealloc(a, bytes));
    assert(after_dealloc(after_alloc(m, bytes, d), bytes, d).stats == s1.update(q, e));
    let p = pos_of(s, d);
    if p >= 0 {
        assert(q == p) by {
            if q < p {
                assert(s1[q] == s[q]);
            }
        }
        assert(s1.update(q, e) =~= s.update(p, e));
        assert(s[p].0 == d);
        lemma_leaks_update(s, p, e);
    } else {
        assert(q == s.len()) by {
            if q < s.len() {
                assert(s1[q] == s[q]);
            }
        }
        assert(s1.update(q, e) =~= s.push(e));
        assert(s.push(e).drop_last() =~= s);
        assert(leak_of(e) is None);
    }
}

/// A profiler that has recorded nothing reports no leak after an allocation
/// that is freed again in full.
pub proof fn lemma_balanced_no_leaks(m: ProfilerModel, bytes: usize, d: Seq<char>)
    requires
        m.enabled,
        profiler_inv(m),
        m.stats.len() == 0,
        m.allocations.len() == 0,
        m.current_bytes == 0,
    ensures
        alloc_fits(m, bytes, d),
        dealloc_fits(after_alloc(m, bytes, d), bytes, d),
        leaks_in(after_dealloc(after_alloc(m, bytes, d), bytes, d).stats).len() == 0,
{
    let a = stats_after_alloc(stats_of(m.stats, d), bytes);
    lemma_put_distinct(m.stats, d, a);
    assert(stats_of(put(m.stats, d, a), d) == a);
    lemma_alloc_free_balanced(m, bytes, d);
}

/// The UTF-8 encoding of two strings one after the other is the two
/// encodings one after the other.
proof fn lemma_encode_concat(a: Seq<char>, b: Seq<char>)
    ensures
        encode_utf8(a + b) == encode_utf8(a) + encode_utf8(b),
    decreases a.len(),
{
    if a.len() > 0 {
        lemma_encode_concat(a.drop_first(), b);
        assert((a + b).drop_first() =~= a.drop_first() + b);
        assert((a + b)[0] == a[0]);
        assert(encode_utf8(a + b) =~= encode_utf8(a) + encode_utf8(b));
    } else {
        assert(a + b =~= b);
        assert(encode_utf8(a) + encode_utf8(b) =~= encode_utf8(b));
    }
}

/// A cut of valid UTF-8 at a character boundary decodes to text whose
/// encoding is the cut.
proof fn lemma_cut_round_trip(b: Seq<u8>, k: int)
    requires
        valid_utf8(b),
        0 <= k <= b.len(),
        vstd::utf8::is_char_boundary(b, k),
    ensures
        encode_utf8(decode_utf8(b.take(k))) == b.take(k),
{
    valid_utf8_split(b, k);
    assert(b.take(k) =~= b.subrange(0, k));
    decode_utf8_encode_utf8(b.take(k));
}

/// A truncated string never takes more than `max` bytes.
pub proof fn lemma_truncate_fits(s: Seq<char>, max: nat)
    requires
        truncatable(s, max),
        max <= usize::MAX,
    ensures
        byte_len(truncate_spec(s, max)) <= max,
{
    let b = encode_utf8(s);
    vstd::utf8::encode_utf8_valid_utf8(s);
    if byte_len(s) > max {
        assert(b.len() > max);
        if max > 3 {
            let k = max - 3;
            lemma_cut_round_trip(b, k);
            let head = decode_utf8(b.take(k));
            reveal_strlit("...");
            assert(is_ascii_chars("..."@));
            is_ascii_chars_encode_utf8("..."@);
            lemma_encode_concat(head, "..."@);
            assert(encode_utf8(head + "..."@).len() == max);
        } else {
            lemma_cut_round_trip(b, max as int);
        }
    }
}

} // verus!
