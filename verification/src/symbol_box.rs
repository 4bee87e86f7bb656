//! The symbol allocator: issues process-wide unique symbol marks.
//!
//! A mark is a globally unique identifier for one binding occurrence (a
//! declared or imported name) anywhere across all modules. Marks are totally
//! ordered by issuance and never collide, because every allocation goes
//! through one `SymbolBox`, which hands out the values of a strictly
//! increasing counter.

use vstd::prelude::*;

verus! {

/// A symbol mark: comparable, totally ordered by issuance, never reused.
pub type Mark = u64;

/// Issues fresh symbol marks from a strictly increasing counter.
pub struct SymbolBox {
    next_mark: u64,
}

impl SymbolBox {
    /// The value the next allocation will return.
    pub closed spec fn next(self) -> u64 {
        self.next_mark
    }

    /// The set of marks issued so far: exactly the values below the counter.
    pub open spec fn issued(self) -> Set<Mark> {
        Set::new(|m: Mark| m < self.next())
    }

    /// One allocation step: `post` is `pre` after issuing `m`.
    pub open spec fn issues(pre: SymbolBox, post: SymbolBox, m: Mark) -> bool {
        &&& m == pre.next()
        &&& pre.next() < u64::MAX
        &&& post.next() == pre.next() + 1
    }

    /// How many marks have been issued so far — also the value the next
    /// allocation returns.
    pub fn issued_count(&self) -> (r: u64)
        ensures
            r == self.next(),
    {
        self.next_mark
    }

    pub fn new() -> (r: SymbolBox)
        ensures
            r.next() == 0,
            r.issued() =~= Set::<Mark>::empty(),
    {
        SymbolBox { next_mark: 0 }
    }

    /// Returns a fresh mark, strictly greater than every mark issued before.
    pub fn new_mark(&mut self) -> (m: Mark)
        requires
            old(self).next() < u64::MAX,
        ensures
            m == old(self).next(),
            SymbolBox::issues(*old(self), *final(self), m),
            !old(self).issued().contains(m),
            final(self).issued() =~= old(self).issued().insert(m),
    {
        let m = self.next_mark;
        self.next_mark = self.next_mark + 1;
        m
    }
}

/// Mark uniqueness: marks issued by two distinct allocation events are never
/// equal. If one allocation (`a` to `b`, issuing `m1`) happens no later than
/// another (`c` to `d`, issuing `m2`), the two marks differ, whatever ran in
/// between — the counter only grows.
pub proof fn lemma_mark_uniqueness(a: SymbolBox, b: SymbolBox, m1: Mark, c: SymbolBox, d: SymbolBox, m2: Mark)
    requires
        SymbolBox::issues(a, b, m1),
        SymbolBox::issues(c, d, m2),
        b.next() <= c.next(),
    ensures
        m1 != m2,
        m1 < m2,
{
}

/// Every mark issued before an allocation stays issued after it, and the
/// fresh mark was not among them.
pub proof fn lemma_issued_grows(pre: SymbolBox, post: SymbolBox, m: Mark)
    requires
        SymbolBox::issues(pre, post, m),
    ensures
        !pre.issued().contains(m),
        post.issued().contains(m),
        pre.issued().subset_of(post.issued()),
        forall|k: Mark| pre.issued().contains(k) ==> k != m,
{
}

} // verus!
