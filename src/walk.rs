//! The order in which a traversal visits directories: depth first, each
//! directory's subdirectories in its listing's order, before its later
//! siblings.

use crate::listing::path_views;
use vstd::prelude::*;

verus! {

/// The directories still to visit, the next one first.
pub struct Walk {
    /// Kept in reverse: the next directory is the last element.
    stack: Vec<String>,
}

impl View for Walk {
    type V = Seq<Seq<char>>;

    closed spec fn view(&self) -> Seq<Seq<char>> {
        Seq::new(self.stack@.len(), |i: int| self.stack@[self.stack@.len() - 1 - i]@)
    }
}

impl Walk {
    /// A walk that visits `root` first.
    pub fn new(root: String) -> (r: Walk)
        ensures
            r@ == seq![root@],
    {
        let mut stack: Vec<String> = Vec::new();
        stack.push(root);
        let r = Walk { stack };
        assert(r@ =~= seq![r.stack@[0]@]);
        r
    }

    /// The next directory to visit, taken off the walk; none when the walk
    /// is over.
    pub fn next_dir(&mut self) -> (r: Option<String>)
        ensures
            old(self)@.len() == 0 ==> r is None && final(self)@ == old(self)@,
            old(self)@.len() > 0 ==> (r matches Some(p) && p@ == old(self)@[0]),
            old(self)@.len() > 0 ==> final(self)@ == old(self)@.drop_first(),
    {
        let r = self.stack.pop();
        proof {
            if old(self)@.len() > 0 {
                assert(final(self)@ =~= old(self)@.drop_first());
            } else {
                assert(final(self)@ =~= old(self)@);
            }
        }
        r
    }

    /// Puts `subdirs`, in their order, before everything still to visit.
    pub fn schedule(&mut self, subdirs: Vec<String>)
        ensures
            final(self)@ == path_views(subdirs@) + old(self)@,
    {
        let mut rest = subdirs;
        let ghost all = path_views(rest@);
        assert(self@ =~= all.subrange(rest@.len() as int, all.len() as int) + old(self)@);
        while rest.len() > 0
            invariant
                all == path_views(subdirs@),
                rest@.len() <= all.len(),
                forall|i: int| 0 <= i < rest@.len() ==> #[trigger] rest@[i]@ == all[i],
                self@ == all.subrange(rest@.len() as int, all.len() as int) + old(self)@,
            decreases rest.len(),
        {
            let ghost before = self@;
            let ghost n = rest@.len();
            let p = rest.pop().unwrap();
            self.stack.push(p);
            assert(self@ =~= seq![all[n - 1]] + before);
            assert(self@ =~= all.subrange(rest@.len() as int, all.len() as int) + old(self)@);
        }
        assert(all.subrange(0, all.len() as int) =~= all);
    }
}

} // verus!
