//! Numeric addresses: an [`Identity`] is the list of the numbers of the nodes
//! from the root down to one node.

use crate::text::{decimal, push_decimal};
use vstd::prelude::*;
use vstd::std_specs::cmp::PartialEqSpecImpl;
use vstd::string::StringExecFns;

verus! {

/// The numbers of the nodes from the root down to one node. Rendered, it is a
/// name for that node which no other node has.
#[derive(Debug, Hash)]
pub struct Identity {
    id: Vec<usize>,
}

impl View for Identity {
    type V = Seq<usize>;

    closed spec fn view(&self) -> Seq<usize> {
        self.id@
    }
}

/// The text of an identity: for each number in order an `@` and the number in
/// decimal.
pub open spec fn identity_text(id: Seq<usize>) -> Seq<char>
    decreases id.len(),
{
    if id.len() == 0 {
        Seq::empty()
    } else {
        identity_text(id.drop_last()) + seq!['@'] + decimal(id.last() as nat)
    }
}

impl Identity {
    /// The identity of the node with the number `id` directly below the root.
    pub fn new(id: usize) -> (identity: Identity)
        ensures
            identity@ == seq![id],
    {
        let mut numbers: Vec<usize> = Vec::new();
        numbers.push(id);
        assert(numbers@ =~= seq![id]);
        Identity { id: numbers }
    }

    /// The identity that leads first as this one does and then as `other`.
    pub fn intersect(&self, other: Identity) -> (identity: Identity)
        ensures
            identity@ == self@ + other@,
    {
        let mut numbers: Vec<usize> = Vec::new();
        let mut i: usize = 0;
        while i < self.id.len()
            invariant
                i <= self.id@.len(),
                numbers@ == self.id@.take(i as int),
            decreases self.id@.len() - i,
        {
            numbers.push(self.id[i]);
            assert(numbers@ =~= self.id@.take(i as int + 1));
            i += 1;
        }
        assert(self.id@.take(i as int) =~= self.id@);
        let mut k: usize = 0;
        while k < other.id.len()
            invariant
                k <= other.id@.len(),
                numbers@ == self.id@ + other.id@.take(k as int),
            decreases other.id@.len() - k,
        {
            numbers.push(other.id[k]);
            assert(numbers@ =~= self.id@ + other.id@.take(k as int + 1));
            k += 1;
        }
        assert(other.id@.take(k as int) =~= other.id@);
        Identity { id: numbers }
    }

    /// The identity of the node one step nearer to the root. The identity must
    /// have a step to leave out.
    pub fn outer(&self) -> (identity: Identity)
        requires
            self@.len() > 0,
        ensures
            identity@ == self@.drop_last(),
    {
        let mut numbers: Vec<usize> = Vec::new();
        let mut i: usize = 0;
        let end = self.id.len() - 1;
        while i < end
            invariant
                i <= end,
                end + 1 == self.id@.len(),
                numbers@ == self.id@.take(i as int),
            decreases end - i,
        {
            numbers.push(self.id[i]);
            assert(numbers@ =~= self.id@.take(i as int + 1));
            i += 1;
        }
        assert(self.id@.take(i as int) =~= self.id@.drop_last());
        Identity { id: numbers }
    }

    /// The number of steps.
    pub fn len(&self) -> (len: usize)
        ensures
            len == self@.len(),
    {
        self.id.len()
    }

    /// The text of the identity: see [`identity_text`].
    pub fn render(&self) -> (out: String)
        ensures
            out@ == identity_text(self@),
    {
        let mut out = String::new();
        let mut i: usize = 0;
        assert(self@.take(0) =~= Seq::<usize>::empty());
        while i < self.id.len()
            invariant
                i <= self.id@.len(),
                out@ == identity_text(self@.take(i as int)),
            decreases self.id@.len() - i,
        {
            let ghost before = out@;
            out.append("@");
            push_decimal(&mut out, self.id[i] as u128);
            proof {
                reveal_strlit("@");
                assert("@"@ =~= seq!['@']);
                let next = self@.take(i as int + 1);
                assert(next.drop_last() =~= self@.take(i as int));
                assert(next.last() == self@[i as int]);
                assert(out@ =~= before + seq!['@'] + decimal(self@[i as int] as nat));
            }
            i += 1;
        }
        assert(self@.take(i as int) =~= self@);
        out
    }
}

impl Clone for Identity {
    fn clone(&self) -> (identity: Identity)
        ensures
            identity@ == self@,
    {
        let mut numbers: Vec<usize> = Vec::new();
        let mut i: usize = 0;
        while i < self.id.len()
            invariant
                i <= self.id@.len(),
                numbers@ == self.id@.take(i as int),
            decreases self.id@.len() - i,
        {
            numbers.push(self.id[i]);
            assert(numbers@ =~= self.id@.take(i as int + 1));
            i += 1;
        }
        assert(self.id@.take(i as int) =~= self.id@);
        Identity { id: numbers }
    }
}

impl PartialEq for Identity {
    fn eq(&self, other: &Identity) -> (equal: bool) {
        if self.id.len() != other.id.len() {
            return false;
        }
        let mut i: usize = 0;
        while i < self.id.len()
            invariant
                i <= self.id@.len(),
                self.id@.len() == other.id@.len(),
                self.id@.take(i as int) == other.id@.take(i as int),
            decreases self.id@.len() - i,
        {
            if self.id[i] != other.id[i] {
                return false;
            }
            assert(self.id@.take(i as int + 1) =~= self.id@.take(i as int).push(self.id@[i as int]));
            assert(other.id@.take(i as int + 1) =~= other.id@.take(i as int).push(
                other.id@[i as int],
            ));
            i += 1;
        }
        assert(self.id@.take(i as int) =~= self.id@);
        assert(other.id@.take(i as int) =~= other.id@);
        true
    }
}

impl Eq for Identity {

}

impl PartialEqSpecImpl for Identity {
    open spec fn obeys_eq_spec() -> bool {
        true
    }

    open spec fn eq_spec(&self, other: &Identity) -> bool {
        self@ == other@
    }
}

/// Leaving out the last step undoes the taking of one step.
pub proof fn lemma_outer_of_intersect(prefix: Seq<usize>, id: usize)
    ensures
        (prefix + seq![id]).drop_last() == prefix,
{
    assert((prefix + seq![id]).drop_last() =~= prefix);
}

} // verus!
