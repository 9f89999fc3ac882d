//! The lines a viewer holds for one session, and which of them are selected.

use vstd::prelude::*;
use crate::text::{occurs_in, strings_view, text_contains};

verus! {

/// Each index is smaller than the next.
pub open spec fn strictly_increasing(s: Seq<usize>) -> bool {
    forall|i: int, j: int| 0 <= i < j < s.len() ==> s[i] < s[j]
}

proof fn lemma_insert_to_set(s: Seq<usize>, p: int, x: usize)
    requires
        0 <= p <= s.len(),
    ensures
        s.insert(p, x).to_set() == s.to_set().insert(x),
{
    let t = s.insert(p, x);
    assert forall|y: usize| t.contains(y) <==> s.contains(y) || y == x by {
        if t.contains(y) {
            let i = choose|i: int| 0 <= i < t.len() && t[i] == y;
            if i < p {
                assert(s[i] == y);
            } else if i > p {
                assert(s[i - 1] == y);
            }
        }
        if s.contains(y) {
            let i = choose|i: int| 0 <= i < s.len() && s[i] == y;
            if i < p {
                assert(t[i] == y);
            } else {
                assert(t[i + 1] == y);
            }
        }
        if y == x {
            assert(t[p] == x);
        }
    }
    assert(t.to_set() =~= s.to_set().insert(x));
}

proof fn lemma_remove_to_set(s: Seq<usize>, p: int)
    requires
        0 <= p < s.len(),
        strictly_increasing(s),
    ensures
        s.remove(p).to_set() == s.to_set().remove(s[p]),
{
    let t = s.remove(p);
    let x = s[p];
    assert forall|y: usize| t.contains(y) <==> s.contains(y) && y != x by {
        if t.contains(y) {
            let i = choose|i: int| 0 <= i < t.len() && t[i] == y;
            if i < p {
                assert(s[i] == y);
            } else {
                assert(s[i + 1] == y);
            }
        }
        if s.contains(y) && y != x {
            let i = choose|i: int| 0 <= i < s.len() && s[i] == y;
            if i < p {
                assert(t[i] == y);
            } else {
                assert(t[i - 1] == y);
            }
        }
    }
    assert(t.to_set() =~= s.to_set().remove(x));
}

/// The first position whose index is not below `x`.
fn lower_bound(v: &Vec<usize>, x: usize) -> (p: usize)
    requires
        strictly_increasing(v@),
    ensures
        p <= v@.len(),
        forall|i: int| 0 <= i < p ==> v@[i] < x,
        forall|i: int| p <= i < v@.len() ==> v@[i] >= x,
{
    let mut p: usize = 0;
    while p < v.len() && v[p] < x
        invariant
            p <= v@.len(),
            strictly_increasing(v@),
            forall|i: int| 0 <= i < p ==> v@[i] < x,
        decreases v@.len() - p,
    {
        p = p + 1;
    }
    p
}

fn sel_contains(v: &Vec<usize>, x: usize) -> (r: bool)
    requires
        strictly_increasing(v@),
    ensures
        r == v@.contains(x),
{
    let p = lower_bound(v, x);
    let r = p < v.len() && v[p] == x;
    proof {
        if !r && v@.contains(x) {
            let i = choose|i: int| 0 <= i < v@.len() && v@[i] == x;
            if i > p {
                assert(v@[p as int] < v@[i]);
            }
        }
    }
    r
}

fn sel_insert(v: &mut Vec<usize>, x: usize)
    requires
        strictly_increasing(old(v)@),
    ensures
        strictly_increasing(final(v)@),
        final(v)@.to_set() == old(v)@.to_set().insert(x),
{
    let p = lower_bound(v, x);
    if p < v.len() && v[p] == x {
        proof {
            assert(v@.contains(x));
            assert(v@.to_set().insert(x) =~= v@.to_set());
        }
        return;
    }
    proof {
        lemma_insert_to_set(v@, p as int, x);
    }
    v.insert(p, x);
}

fn sel_remove(v: &mut Vec<usize>, x: usize)
    requires
        strictly_increasing(old(v)@),
    ensures
        strictly_increasing(final(v)@),
        final(v)@.to_set() == old(v)@.to_set().remove(x),
{
    let p = lower_bound(v, x);
    if p < v.len() && v[p] == x {
        proof {
            lemma_remove_to_set(v@, p as int);
        }
        v.remove(p);
        proof {
            assert forall|i: int, j: int| 0 <= i < j < v@.len() implies v@[i] < v@[j] by {
                if j < p {
                } else if i < p {
                    assert(old(v)@[i] < old(v)@[j + 1]);
                } else {
                    assert(old(v)@[i + 1] < old(v)@[j + 1]);
                }
            }
        }
    } else {
        proof {
            assert(!v@.contains(x)) by {
                if v@.contains(x) {
                    let i = choose|i: int| 0 <= i < v@.len() && v@[i] == x;
                    if i > p {
                        assert(v@[p as int] < v@[i]);
                    }
                }
            }
            assert(v@.to_set().remove(x) =~= v@.to_set());
        }
    }
}

/// The lines joined with newlines between them.
pub open spec fn join_lines(ls: Seq<Seq<char>>) -> Seq<char>
    decreases ls.len(),
{
    if ls.len() == 0 {
        seq![]
    } else if ls.len() == 1 {
        ls[0]
    } else {
        join_lines(ls.drop_last()) + seq!['\n'] + ls.last()
    }
}

/// The lines that hold `pattern`, each with its index, in order.
pub open spec fn filter_lines(ls: Seq<Seq<char>>, pattern: Seq<char>) -> Seq<(Seq<char>, int)>
    decreases ls.len(),
{
    if ls.len() == 0 {
        seq![]
    } else {
        let rest = filter_lines(ls.drop_last(), pattern);
        if occurs_in(pattern, ls.last()) {
            rest.push((ls.last(), ls.len() - 1))
        } else {
            rest
        }
    }
}

pub open spec fn indexed_view(v: Seq<(String, u32)>) -> Seq<(Seq<char>, int)> {
    v.map_values(|e: (String, u32)| (e.0@, e.1 as int))
}

/// The lines shown for one session and the selection among them.
pub struct LinesState {
    lines: Vec<String>,
    filtered_lines: Vec<(String, u32)>,
    selected_lines: Vec<usize>,
}

impl LinesState {
    /// The lines held, in order.
    pub closed spec fn lines_view(&self) -> Seq<Seq<char>> {
        strings_view(self.lines@)
    }

    /// The selected line indices, in ascending order.
    pub closed spec fn selected(&self) -> Seq<usize> {
        self.selected_lines@
    }

    pub open spec fn wf(&self) -> bool {
        strictly_increasing(self.selected())
    }

    /// No line, nothing selected.
    pub fn new() -> (r: LinesState)
        ensures
            r.wf(),
            r.lines_view() == Seq::<Seq<char>>::empty(),
            r.selected() == Seq::<usize>::empty(),
    {
        let r = LinesState { lines: vec![], filtered_lines: vec![], selected_lines: vec![] };
        assert(strings_view(r.lines@) =~= Seq::<Seq<char>>::empty());
        r
    }

    /// Appends lines after those held.
    pub fn add_lines(&mut self, lines: Vec<String>)
        requires
            old(self).wf(),
        ensures
            final(self).wf(),
            final(self).lines_view() == old(self).lines_view() + strings_view(lines@),
            final(self).selected() == old(self).selected(),
    {
        let mut lines = lines;
        let ghost added = lines@;
        self.lines.append(&mut lines);
        assert(strings_view(self.lines@) =~= strings_view(old(self).lines@) + strings_view(added));
    }

    /// Drops every line and the selection.
    pub fn clear_lines(&mut self)
        ensures
            final(self).wf(),
            final(self).lines_view() == Seq::<Seq<char>>::empty(),
            final(self).selected() == Seq::<usize>::empty(),
    {
        self.lines.clear();
        self.selected_lines.clear();
        assert(strings_view(self.lines@) =~= Seq::<Seq<char>>::empty());
    }

    /// A plain click on line `idx`: it becomes the only selected line, unless
    /// it already was, in which case nothing stays selected.
    pub fn toggle_single_line_selection(&mut self, idx: usize)
        requires
            old(self).wf(),
        ensures
            final(self).wf(),
            final(self).lines_view() == old(self).lines_view(),
            final(self).selected() == (if old(self).selected().to_set() == set![idx] {
                Seq::<usize>::empty()
            } else {
                seq![idx]
            }),
    {
        let was = sel_contains(&self.selected_lines, idx);
        let single = was && self.selected_lines.len() == 1;
        proof {
            let s = old(self).selected();
            if single {
                assert(s =~= seq![idx]);
                assert forall|y: usize| s.to_set().contains(y) <==> y == idx by {
                    if y == idx {
                        assert(s[0] == idx);
                    }
                }
                assert(s.to_set() =~= set![idx]);
            }
            if s.to_set() == set![idx] {
                assert(s.to_set().contains(idx));
                if s.len() > 1 {
                    assert(s.to_set().contains(s[0]));
                    assert(s.to_set().contains(s[1]));
                    assert(s[0] < s[1]);
                }
            }
        }
        self.selected_lines.clear();
        if !single {
            self.selected_lines.push(idx);
        }
        proof {
            if single {
                assert(self.selected_lines@.to_set() =~= Set::<usize>::empty());
            } else {
                assert(self.selected_lines@ =~= seq![idx]);
                assert forall|y: usize| self.selected_lines@.to_set().contains(y) <==> y == idx by {
                    if y == idx {
                        assert(self.selected_lines@[0] == idx);
                    }
                }
                assert(self.selected_lines@.to_set() =~= set![idx]);
            }
        }
    }

    /// A click with the add modifier on line `idx`: flips whether it is selected.
    pub fn toggle_add_selection(&mut self, idx: usize)
        requires
            old(self).wf(),
        ensures
            final(self).wf(),
            final(self).lines_view() == old(self).lines_view(),
            final(self).selected().to_set() == (if old(self).selected().contains(idx) {
                old(self).selected().to_set().remove(idx)
            } else {
                old(self).selected().to_set().insert(idx)
            }),
    {
        if sel_contains(&self.selected_lines, idx) {
            sel_remove(&mut self.selected_lines, idx);
        } else {
            sel_insert(&mut self.selected_lines, idx);
        }
    }

    /// A click with the range modifier on line `idx`: with nothing selected it
    /// selects `idx`; below the selection it adds every line from `idx` up to
    /// the last selected one, above it every line from the first selected one
    /// up to `idx`; within it, nothing changes.
    pub fn toggle_add_range_selection(&mut self, idx: usize)
        requires
            old(self).wf(),
        ensures
            final(self).wf(),
            final(self).lines_view() == old(self).lines_view(),
            ({
                let s = old(self).selected();
                &&& s.len() == 0 ==> final(self).selected() == seq![idx]
                &&& final(self).selected().to_set() == (if s.len() == 0 {
                    set![idx]
                } else if idx < s[0] {
                    s.to_set().union(Set::new(|i: usize| idx <= i < s.last()))
                } else if idx > s.last() {
                    s.to_set().union(Set::new(|i: usize| s[0] <= i <= idx))
                } else {
                    s.to_set()
                })
            }),
    {
        let ghost s = self.selected_lines@;
        if self.selected_lines.len() == 0 {
            self.selected_lines.push(idx);
            assert(self.selected_lines@ =~= seq![idx]);
            assert forall|y: usize| self.selected_lines@.to_set().contains(y) <==> y == idx by {
                if y == idx {
                    assert(self.selected_lines@[0] == idx);
                }
            }
            assert(self.selected_lines@.to_set() =~= set![idx]);
            return;
        }
        let min_idx = self.selected_lines[0];
        let max_idx = self.selected_lines[self.selected_lines.len() - 1];
        if idx < min_idx {
            let mut i = idx;
            while i < max_idx
                invariant
                    idx <= i <= max_idx,
                    self.lines@ == old(self).lines@,
                    strictly_increasing(self.selected_lines@),
                    self.selected_lines@.to_set() == s.to_set().union(
                        Set::new(|k: usize| idx <= k < i),
                    ),
                decreases max_idx - i,
            {
                sel_insert(&mut self.selected_lines, i);
                assert(self.selected_lines@.to_set() =~= s.to_set().union(
                    Set::new(|k: usize| idx <= k < i + 1),
                ));
                i = i + 1;
            }
        } else if idx > max_idx {
            let mut i = min_idx;
            assert(s.to_set().union(Set::new(|k: usize| min_idx <= k < min_idx)) =~= s.to_set());
            while i < idx
                invariant
                    min_idx <= i <= idx,
                    self.lines@ == old(self).lines@,
                    strictly_increasing(self.selected_lines@),
                    self.selected_lines@.to_set() == s.to_set().union(
                        Set::new(|k: usize| min_idx <= k < i),
                    ),
                decreases idx - i,
            {
                sel_insert(&mut self.selected_lines, i);
                assert(self.selected_lines@.to_set() =~= s.to_set().union(
                    Set::new(|k: usize| min_idx <= k < i + 1),
                ));
                i = i + 1;
            }
            sel_insert(&mut self.selected_lines, idx);
            assert(self.selected_lines@.to_set() =~= s.to_set().union(
                Set::new(|k: usize| min_idx <= k <= idx),
            ));
        }
    }

    /// Whether line `idx` is selected.
    pub fn is_selected(&self, idx: usize) -> (r: bool)
        requires
            self.wf(),
        ensures
            r == self.selected().contains(idx),
    {
        sel_contains(&self.selected_lines, idx)
    }

    /// The text of the selected lines, in line order, joined by newlines.
    pub fn get_selected_text(&self) -> (r: String)
        requires
            self.wf(),
            forall|i: int|
                0 <= i < self.selected().len() ==> #[trigger] self.selected()[i] < self.lines_view().len(),
        ensures
            r@ == join_lines(self.selected().map_values(|i: usize| self.lines_view()[i as int])),
    {
        let ghost picked = self.selected().map_values(|i: usize| self.lines_view()[i as int]);
        let mut text = String::new();
        let mut k: usize = 0;
        while k < self.selected_lines.len()
            invariant
                k <= self.selected_lines@.len(),
                picked == self.selected().map_values(|i: usize| self.lines_view()[i as int]),
                forall|i: int|
                    0 <= i < self.selected().len() ==> #[trigger] self.selected()[i] < self.lines_view().len(),
                text@ == join_lines(picked.subrange(0, k as int)),
            decreases self.selected_lines@.len() - k,
        {
            let line = &self.lines[self.selected_lines[k]];
            assert(line@ == picked[k as int]);
            assert(picked.subrange(0, k + 1).drop_last() =~= picked.subrange(0, k as int));
            if k > 0 {
                proof {
                    reveal_strlit("\n");
                }
                text.append("\n");
            } else {
                assert(text@ =~= Seq::<char>::empty());
            }
            text.append(line.as_str());
            assert(text@ =~= join_lines(picked.subrange(0, k + 1)));
            k = k + 1;
        }
        assert(picked.subrange(0, k as int) =~= picked);
        text
    }

    /// The lines that hold `pattern`, each with its index, in order; all of
    /// them for an empty pattern.
    pub fn get_filtered_lines(&mut self, pattern: &String) -> (r: &Vec<(String, u32)>)
        requires
            old(self).wf(),
            old(self).lines_view().len() <= u32::MAX as int + 1,
        ensures
            final(self).wf(),
            final(self).lines_view() == old(self).lines_view(),
            final(self).selected() == old(self).selected(),
            indexed_view(r@) == filter_lines(old(self).lines_view(), pattern@),
    {
        let mut out: Vec<(String, u32)> = Vec::new();
        let mut i: usize = 0;
        while i < self.lines.len()
            invariant
                i <= self.lines@.len(),
                self.lines@.len() <= u32::MAX as int + 1,
                self.lines@ == old(self).lines@,
                self.selected_lines@ == old(self).selected_lines@,
                indexed_view(out@) == filter_lines(strings_view(self.lines@).subrange(0, i as int), pattern@),
            decreases self.lines@.len() - i,
        {
            let ghost ls = strings_view(self.lines@);
            assert(ls.subrange(0, i + 1).drop_last() =~= ls.subrange(0, i as int));
            assert(ls.subrange(0, i + 1).last() == self.lines@[i as int]@);
            if text_contains(self.lines[i].as_str(), pattern.as_str()) {
                let line = self.lines[i].clone();
                out.push((line, i as u32));
                assert(indexed_view(out@) =~= filter_lines(ls.subrange(0, i as int), pattern@).push(
                    (ls[i as int], i as int),
                ));
            }
            i = i + 1;
        }
        assert(strings_view(self.lines@).subrange(0, i as int) =~= strings_view(self.lines@));
        self.filtered_lines = out;
        &self.filtered_lines
    }
}

} // verus!
