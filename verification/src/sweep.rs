//! Facts about the running count of a sweep over endpoints in endpoint
//! order: at each event it is bounded by, and at the right events equal to,
//! the number of sample intervals that cover the event's value.

use vstd::prelude::*;

use crate::count::{
    count_where, lemma_count_ext, lemma_count_last_witness, lemma_count_mono, lemma_count_none,
    lemma_count_split, lemma_count_take_next,
};
use crate::sort::{key_le, sorted, Endpoint};

verus! {

pub open spec fn is_st() -> spec_fn(Endpoint) -> bool {
    |e: Endpoint| e.is_start
}

pub open spec fn is_en() -> spec_fn(Endpoint) -> bool {
    |e: Endpoint| !e.is_start
}

pub open spec fn st_le(v: int) -> spec_fn(Endpoint) -> bool {
    |e: Endpoint| e.is_start && e.value <= v
}

pub open spec fn st_eq(v: int) -> spec_fn(Endpoint) -> bool {
    |e: Endpoint| e.is_start && e.value == v
}

pub open spec fn en_lt(v: int) -> spec_fn(Endpoint) -> bool {
    |e: Endpoint| !e.is_start && e.value < v
}

pub open spec fn en_le(v: int) -> spec_fn(Endpoint) -> bool {
    |e: Endpoint| !e.is_start && e.value <= v
}

pub open spec fn en_eq(v: int) -> spec_fn(Endpoint) -> bool {
    |e: Endpoint| !e.is_start && e.value == v
}

/// The sweep's count after the first `j` events: starts seen minus ends seen.
pub open spec fn run(s: Seq<Endpoint>, j: int) -> int {
    count_where(s.take(j), is_st()) - count_where(s.take(j), is_en())
}

/// One more event moves the count up for a start and down for an end.
pub proof fn lemma_run_next(s: Seq<Endpoint>, k: int)
    requires
        0 <= k < s.len(),
    ensures
        run(s, k + 1) == run(s, k) + if s[k].is_start { 1int } else { -1int },
        count_where(s.take(k + 1), is_st()) <= count_where(s, is_st()),
{
    lemma_count_take_next(s, k, is_st());
    lemma_count_take_next(s, k, is_en());
    lemma_count_split(s, k + 1, is_st());
}

/// After a start event, the count is at most the number of starts at or
/// before its value minus the ends before it, and equal to that when no
/// start with the same value follows.
pub proof fn lemma_start_event(s: Seq<Endpoint>, k: int)
    requires
        sorted(s),
        0 <= k < s.len(),
        s[k].is_start,
    ensures
        run(s, k + 1) <= count_where(s, st_le(s[k].value as int)) - count_where(s, en_lt(s[k].value as int)),
        (k + 1 == s.len() || !(s[k + 1].is_start && s[k + 1].value == s[k].value)) ==> run(s, k + 1)
            == count_where(s, st_le(s[k].value as int)) - count_where(s, en_lt(s[k].value as int)),
{
    let v = s[k].value as int;
    let t = s.take(k + 1);
    let r = s.skip(k + 1);
    lemma_count_split(s, k + 1, en_lt(v));
    lemma_count_split(s, k + 1, st_le(v));
    assert forall|i: int| 0 <= i < r.len() implies !#[trigger] en_lt(v)(r[i]) by {
        assert(r[i] == s[k + 1 + i]);
        assert(key_le(s[k], s[k + 1 + i]));
    }
    lemma_count_none(r, en_lt(v));
    assert forall|i: int| 0 <= i < t.len() implies #[trigger] is_en()(t[i]) == en_lt(v)(t[i]) by {
        assert(t[i] == s[i]);
        if i < k {
            assert(key_le(s[i], s[k]));
        }
    }
    lemma_count_ext(t, is_en(), en_lt(v));
    assert forall|i: int| 0 <= i < t.len() implies #[trigger] is_st()(t[i]) == st_le(v)(t[i]) by {
        assert(t[i] == s[i]);
        if i < k {
            assert(key_le(s[i], s[k]));
        }
    }
    lemma_count_ext(t, is_st(), st_le(v));
    if k + 1 == s.len() || !(s[k + 1].is_start && s[k + 1].value == s[k].value) {
        assert forall|i: int| 0 <= i < r.len() implies !#[trigger] st_le(v)(r[i]) by {
            assert(r[i] == s[k + 1 + i]);
            assert(key_le(s[k], s[k + 1]));
            if i > 0 {
                assert(key_le(s[k + 1], s[k + 1 + i]));
            }
        }
        lemma_count_none(r, st_le(v));
    }
}

/// Before an end event, the count is at least one: some start is still open.
pub proof fn lemma_end_event(s: Seq<Endpoint>, k: int)
    requires
        sorted(s),
        0 <= k < s.len(),
        !s[k].is_start,
        count_where(s, en_le(s[k].value as int)) <= count_where(s, st_le(s[k].value as int)),
    ensures
        run(s, k) >= 1,
{
    let v = s[k].value as int;
    let t = s.take(k);
    let r = s.skip(k);
    lemma_count_split(s, k, st_le(v));
    assert forall|i: int| 0 <= i < r.len() implies !#[trigger] st_le(v)(r[i]) by {
        assert(r[i] == s[k + i]);
        if i > 0 {
            assert(key_le(s[k], s[k + i]));
        }
    }
    lemma_count_none(r, st_le(v));
    assert forall|i: int| 0 <= i < t.len() implies #[trigger] is_st()(t[i]) == st_le(v)(t[i]) by {
        assert(t[i] == s[i]);
        assert(key_le(s[i], s[k]));
    }
    lemma_count_ext(t, is_st(), st_le(v));
    let t1 = s.take(k + 1);
    assert forall|i: int| 0 <= i < t1.len() implies #[trigger] is_en()(t1[i]) == en_le(v)(t1[i]) by {
        assert(t1[i] == s[i]);
        if i < k {
            assert(key_le(s[i], s[k]));
        }
    }
    lemma_count_ext(t1, is_en(), en_le(v));
    lemma_count_split(s, k + 1, en_le(v));
    lemma_count_take_next(s, k, is_en());
}

/// Every value's count of starts at or before it minus ends before it is
/// reached by the sweep's count at some event.
pub proof fn lemma_reached(s: Seq<Endpoint>, t: int) -> (j: int)
    requires
        sorted(s),
        count_where(s, st_le(t)) > 0,
    ensures
        0 <= j <= s.len(),
        run(s, j) >= count_where(s, st_le(t)) - count_where(s, en_lt(t)),
{
    let q = lemma_count_last_witness(s, st_le(t));
    let p = s.take(q + 1);
    let r = s.skip(q + 1);
    lemma_count_split(s, q + 1, st_le(t));
    lemma_count_none(r, st_le(t));
    assert forall|i: int| 0 <= i < p.len() && #[trigger] st_le(t)(p[i]) implies is_st()(p[i]) by {}
    lemma_count_mono(p, st_le(t), is_st());
    assert forall|i: int| 0 <= i < p.len() && #[trigger] is_en()(p[i]) implies en_lt(t)(p[i]) by {
        assert(p[i] == s[i]);
        if i < q {
            assert(key_le(s[i], s[q]));
        }
    }
    lemma_count_mono(p, is_en(), en_lt(t));
    lemma_count_split(s, q + 1, en_lt(t));
    q + 1
}

/// Between a start event and an end event that follows it directly, every
/// value's count of starts at or before it minus ends before it is the
/// sweep's count after the start.
pub proof fn lemma_between_events(s: Seq<Endpoint>, k: int, t: int)
    requires
        sorted(s),
        0 <= k,
        k + 1 < s.len(),
        s[k].is_start,
        !s[k + 1].is_start,
        s[k].value <= t <= s[k + 1].value,
    ensures
        run(s, k + 1) == count_where(s, st_le(t)) - count_where(s, en_lt(t)),
{
    let p = s.take(k + 1);
    let r = s.skip(k + 1);
    lemma_count_split(s, k + 1, st_le(t));
    lemma_count_split(s, k + 1, en_lt(t));
    assert forall|i: int| 0 <= i < p.len() implies #[trigger] is_st()(p[i]) == st_le(t)(p[i]) by {
        assert(p[i] == s[i]);
        if i < k {
            assert(key_le(s[i], s[k]));
        }
    }
    lemma_count_ext(p, is_st(), st_le(t));
    assert forall|i: int| 0 <= i < p.len() implies #[trigger] is_en()(p[i]) == en_lt(t)(p[i]) by {
        assert(p[i] == s[i]);
        if i < k {
            assert(key_le(s[i], s[k]));
        }
    }
    lemma_count_ext(p, is_en(), en_lt(t));
    assert forall|i: int| 0 <= i < r.len() implies !#[trigger] st_le(t)(r[i]) by {
        assert(r[i] == s[k + 1 + i]);
        if i > 0 {
            assert(key_le(s[k + 1], s[k + 1 + i]));
        }
    }
    lemma_count_none(r, st_le(t));
    assert forall|i: int| 0 <= i < r.len() implies !#[trigger] en_lt(t)(r[i]) by {
        assert(r[i] == s[k + 1 + i]);
        if i > 0 {
            assert(key_le(s[k + 1], s[k + 1 + i]));
        }
    }
    lemma_count_none(r, en_lt(t));
}

} // verus!
