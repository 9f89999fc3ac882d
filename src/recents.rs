//! The list of recently opened paths, newest first.

use vstd::prelude::*;
use crate::text::strings_view;

verus! {

/// How many paths the list keeps.
pub const MAX_RECENTS: usize = 10;

/// The list after `path` was opened: `path` first, then the others in their
/// order, at most `MAX_RECENTS` in all.
pub open spec fn updated_recents(recents: Seq<Seq<char>>, path: Seq<char>) -> Seq<Seq<char>> {
    let l = seq![path] + recents.filter(|r: Seq<char>| r != path);
    if l.len() > MAX_RECENTS {
        l.subrange(0, MAX_RECENTS as int)
    } else {
        l
    }
}

/// Recently opened paths, and the one picked among them.
pub struct RecentsBox {
    recents: Vec<String>,
    selected_recent: String,
}

impl RecentsBox {
    /// The paths, newest first.
    pub closed spec fn recents_view(&self) -> Seq<Seq<char>> {
        strings_view(self.recents@)
    }

    /// The path picked last.
    pub closed spec fn selected_view(&self) -> Seq<char> {
        self.selected_recent@
    }

    /// A list holding `recents` as loaded, with nothing picked yet.
    pub fn new(recents: Vec<String>) -> (r: RecentsBox)
        ensures
            r.recents_view() == strings_view(recents@),
            r.selected_view() == Seq::<char>::empty(),
    {
        RecentsBox { recents, selected_recent: String::new() }
    }

    /// The paths, newest first, for saving.
    pub fn recents(&self) -> (r: &Vec<String>)
        ensures
            strings_view(r@) == self.recents_view(),
    {
        &self.recents
    }

    /// The picked path differs from the one open now.
    pub fn is_dirty(&self, prev_path: &String) -> (r: bool)
        ensures
            r == (self.selected_view() != prev_path@),
    {
        !(self.selected_recent == *prev_path)
    }

    /// Puts `path` first in the list and picks it.
    pub fn update_recents(&mut self, path: &String)
        ensures
            final(self).recents_view() == updated_recents(old(self).recents_view(), path@),
            final(self).selected_view() == path@,
    {
        let ghost pred = |r: Seq<char>| r != path@;
        let ghost old_view = strings_view(self.recents@);
        let mut out: Vec<String> = Vec::new();
        out.push(path.clone());
        let mut i: usize = 0;
        proof {
            reveal(Seq::filter);
            assert(old_view.subrange(0, 0).filter(pred) =~= Seq::<Seq<char>>::empty());
            assert(strings_view(out@) =~= seq![path@]);
        }
        while i < self.recents.len()
            invariant
                i <= self.recents@.len(),
                old_view == strings_view(self.recents@),
                pred == (|r: Seq<char>| r != path@),
                strings_view(out@) == seq![path@] + old_view.subrange(0, i as int).filter(pred),
            decreases self.recents@.len() - i,
        {
            proof {
                reveal(Seq::filter);
                assert(old_view.subrange(0, i + 1).drop_last() =~= old_view.subrange(0, i as int));
                assert(old_view.subrange(0, i + 1).last() == self.recents@[i as int]@);
            }
            if !(self.recents[i] == *path) {
                let ghost before = out@;
                out.push(self.recents[i].clone());
                assert(strings_view(out@) =~= strings_view(before).push(self.recents@[i as int]@));
            }
            i = i + 1;
        }
        assert(old_view.subrange(0, i as int) =~= old_view);
        let ghost full = out@;
        out.truncate(MAX_RECENTS);
        proof {
            if full.len() > MAX_RECENTS {
                assert(strings_view(out@) =~= strings_view(full).subrange(0, MAX_RECENTS as int));
            }
        }
        self.recents = out;
        self.selected_recent = path.clone();
    }

    /// The path picked last.
    pub fn get_selected_recent_path(&self) -> (r: String)
        ensures
            r@ == self.selected_view(),
    {
        self.selected_recent.clone()
    }
}

} // verus!
