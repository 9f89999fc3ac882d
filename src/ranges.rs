//! Cutting a line into sections around the spans that a search matched.

use vstd::prelude::*;

verus! {

/// The sections for `ranges`, given that everything before `last` is covered:
/// each match becomes a marked section, and the gap before it, if any, an
/// unmarked one; what is left up to `total` ends the line unmarked.
pub open spec fn sections_from(ranges: Seq<(usize, usize)>, last: usize, total: usize) -> Seq<
    (usize, usize, bool),
>
    decreases ranges.len(),
{
    if ranges.len() == 0 {
        if total > last {
            seq![(last, total, false)]
        } else {
            seq![]
        }
    } else {
        let (start, end) = ranges[0];
        (if start > last {
            seq![(last, start, false)]
        } else {
            seq![]
        }) + seq![(start, end, true)] + sections_from(ranges.drop_first(), end, total)
    }
}

/// Ranges in line order within `[from, total]`: each ends no earlier than it
/// starts, and none starts before the one ahead of it ended.
pub open spec fn ordered_within(r: Seq<(usize, usize)>, from: int, total: int) -> bool {
    &&& from <= total
    &&& forall|i: int| 0 <= i < r.len() ==> #[trigger] r[i].0 <= r[i].1 && r[i].1 <= total
    &&& forall|i: int| 0 <= i < r.len() - 1 ==> #[trigger] r[i].1 <= r[i + 1].0
    &&& r.len() > 0 ==> from <= r[0].0
}

/// The sections follow one another without gap or overlap from `from` to `to`.
pub open spec fn covers(s: Seq<(usize, usize, bool)>, from: int, to: int) -> bool
    decreases s.len(),
{
    if s.len() == 0 {
        from == to
    } else {
        s[0].0 == from && covers(s.drop_first(), s[0].1 as int, to)
    }
}

/// The marked sections, as ranges, in order.
pub open spec fn marked(s: Seq<(usize, usize, bool)>) -> Seq<(usize, usize)>
    decreases s.len(),
{
    if s.len() == 0 {
        seq![]
    } else {
        (if s[0].2 {
            seq![(s[0].0, s[0].1)]
        } else {
            Seq::<(usize, usize)>::empty()
        }) + marked(s.drop_first())
    }
}

/// Every unmarked section holds at least one byte.
pub open spec fn gaps_nonempty(s: Seq<(usize, usize, bool)>) -> bool {
    forall|i: int| 0 <= i < s.len() && !(#[trigger] s[i]).2 ==> s[i].0 < s[i].1
}

proof fn lemma_covers_concat(
    a: Seq<(usize, usize, bool)>,
    b: Seq<(usize, usize, bool)>,
    from: int,
    mid: int,
    to: int,
)
    requires
        covers(a, from, mid),
        covers(b, mid, to),
    ensures
        covers(a + b, from, to),
    decreases a.len(),
{
    if a.len() > 0 {
        lemma_covers_concat(a.drop_first(), b, a[0].1 as int, mid, to);
        assert((a + b).drop_first() =~= a.drop_first() + b);
    } else {
        assert(a + b =~= b);
    }
}

proof fn lemma_marked_concat(a: Seq<(usize, usize, bool)>, b: Seq<(usize, usize, bool)>)
    ensures
        marked(a + b) == marked(a) + marked(b),
    decreases a.len(),
{
    if a.len() > 0 {
        lemma_marked_concat(a.drop_first(), b);
        assert((a + b).drop_first() =~= a.drop_first() + b);
        assert((a + b)[0] == a[0]);
        let head = if a[0].2 {
            seq![(a[0].0, a[0].1)]
        } else {
            Seq::<(usize, usize)>::empty()
        };
        assert(head + (marked(a.drop_first()) + marked(b)) =~= (head + marked(a.drop_first()))
            + marked(b));
    } else {
        assert(a + b =~= b);
        assert(marked(a) + marked(b) =~= marked(b));
    }
}

/// For ordered ranges, the sections tile the line from `last` to `total`,
/// the marked ones are exactly the ranges, and no gap is empty.
proof fn lemma_sections_tile(r: Seq<(usize, usize)>, last: usize, total: usize)
    requires
        ordered_within(r, last as int, total as int),
    ensures
        covers(sections_from(r, last, total), last as int, total as int),
        marked(sections_from(r, last, total)) == r,
        gaps_nonempty(sections_from(r, last, total)),
    decreases r.len(),
{
    let s = sections_from(r, last, total);
    if r.len() == 0 {
        if total > last {
            let t = seq![(last, total, false)];
            assert(t.drop_first() =~= Seq::<(usize, usize, bool)>::empty());
            assert(covers(t.drop_first(), total as int, total as int));
            assert(covers(t, last as int, total as int));
            assert(marked(t.drop_first()) =~= Seq::<(usize, usize)>::empty());
            assert(marked(t) =~= r);
        } else {
            assert(marked(s) =~= r);
        }
    } else {
        let (start, end) = r[0];
        let rest = r.drop_first();
        assert forall|i: int| 0 <= i < rest.len() implies #[trigger] rest[i].0 <= rest[i].1
            && rest[i].1 <= total by {
            assert(rest[i] == r[i + 1]);
        }
        assert forall|i: int| 0 <= i < rest.len() - 1 implies #[trigger] rest[i].1 <= rest[i
            + 1].0 by {
            assert(rest[i] == r[i + 1]);
            assert(rest[i + 1] == r[i + 2]);
        }
        if rest.len() > 0 {
            assert(rest[0] == r[1]);
        }
        lemma_sections_tile(rest, end, total);
        let tail = sections_from(rest, end, total);
        let gap = if start > last {
            seq![(last, start, false)]
        } else {
            Seq::<(usize, usize, bool)>::empty()
        };
        let hit = seq![(start, end, true)];
        assert(s == gap + hit + tail);
        assert(hit.drop_first() =~= Seq::<(usize, usize, bool)>::empty());
        assert(covers(hit.drop_first(), end as int, end as int));
        assert(hit[0].0 == start && hit[0].1 == end);
        assert(covers(hit, start as int, end as int));
        if start > last {
            assert(gap.drop_first() =~= Seq::<(usize, usize, bool)>::empty());
            assert(covers(gap.drop_first(), start as int, start as int));
            assert(gap[0].0 == last && gap[0].1 == start);
            assert(covers(gap, last as int, start as int));
        }
        assert(covers(gap, last as int, start as int));
        lemma_covers_concat(hit, tail, start as int, end as int, total as int);
        lemma_covers_concat(gap, hit + tail, last as int, start as int, total as int);
        assert(gap + (hit + tail) =~= gap + hit + tail);
        lemma_marked_concat(hit, tail);
        lemma_marked_concat(gap, hit + tail);
        assert(marked(hit.drop_first()) =~= Seq::<(usize, usize)>::empty());
        assert(marked(hit) =~= seq![(start, end)]);
        if start > last {
            assert(marked(gap.drop_first()) =~= Seq::<(usize, usize)>::empty());
        }
        assert(marked(gap) =~= Seq::<(usize, usize)>::empty());
        assert(seq![(start, end)] + rest =~= r);
        assert(Seq::<(usize, usize)>::empty() + (seq![(start, end)] + rest) =~= r);
        assert forall|i: int| 0 <= i < s.len() && !(#[trigger] s[i]).2 implies s[i].0 < s[i].1 by {
            if i >= gap.len() + 1 {
                assert(s[i] == tail[i - gap.len() - 1]);
            }
        }
    }
}

proof fn lemma_sections_step(
    ranges: Seq<(usize, usize)>,
    i: int,
    last: usize,
    total: usize,
    done: Seq<(usize, usize, bool)>,
)
    requires
        0 <= i < ranges.len(),
    ensures
        ({
            let (start, end) = ranges[i];
            let gap = if start > last {
                seq![(last, start, false)]
            } else {
                Seq::<(usize, usize, bool)>::empty()
            };
            done + sections_from(ranges.subrange(i, ranges.len() as int), last, total) == (done + gap
                + seq![(start, end, true)]) + sections_from(
                ranges.subrange(i + 1, ranges.len() as int),
                end,
                total,
            )
        }),
{
    let rest = ranges.subrange(i, ranges.len() as int);
    assert(rest[0] == ranges[i]);
    assert(rest.drop_first() =~= ranges.subrange(i + 1, ranges.len() as int));
    let (start, end) = ranges[i];
    let gap = if start > last {
        seq![(last, start, false)]
    } else {
        Seq::<(usize, usize, bool)>::empty()
    };
    assert(done + (gap + seq![(start, end, true)] + sections_from(rest.drop_first(), end, total))
        =~= (done + gap + seq![(start, end, true)]) + sections_from(rest.drop_first(), end, total));
}

/// The sections of a line of `total_len` bytes in which `ranges` matched, in
/// order; a section is marked when it is a match.
pub fn fill_empty_ranges(ranges: Vec<(usize, usize)>, total_len: usize) -> (r: Vec<
    (usize, usize, bool),
>)
    ensures
        r@ == sections_from(ranges@, 0, total_len),
        ordered_within(ranges@, 0, total_len as int) ==> {
            &&& covers(r@, 0, total_len as int)
            &&& marked(r@) == ranges@
            &&& gaps_nonempty(r@)
        },
{
    proof {
        if ordered_within(ranges@, 0, total_len as int) {
            lemma_sections_tile(ranges@, 0, total_len);
        }
    }
    let mut result: Vec<(usize, usize, bool)> = Vec::new();
    let mut last: usize = 0;
    let mut i: usize = 0;
    assert(ranges@.subrange(0, ranges@.len() as int) =~= ranges@);
    while i < ranges.len()
        invariant
            i <= ranges@.len(),
            result@ + sections_from(ranges@.subrange(i as int, ranges@.len() as int), last, total_len)
                == sections_from(ranges@, 0, total_len),
        decreases ranges@.len() - i,
    {
        let (start, end) = ranges[i];
        let ghost before = result@;
        proof {
            lemma_sections_step(ranges@, i as int, last, total_len, before);
        }
        if start > last {
            result.push((last, start, false));
        }
        result.push((start, end, true));
        assert(result@ =~= before + (if start > last {
            seq![(last, start, false)]
        } else {
            Seq::<(usize, usize, bool)>::empty()
        }) + seq![(start, end, true)]);
        last = end;
        i = i + 1;
    }
    assert(ranges@.subrange(i as int, ranges@.len() as int) =~= Seq::<(usize, usize)>::empty());
    if total_len > last {
        result.push((last, total_len, false));
    }
    assert(result@ =~= sections_from(ranges@, 0, total_len));
    result
}

} // verus!
