//! Positional addresses: a [`Path`] leads from the root to one node.

use crate::text::{decimal, is_digit, lemma_decimal_digits, lemma_decimal_injective, push_decimal};
use vstd::prelude::*;
use vstd::std_specs::cmp::PartialEqSpecImpl;
use vstd::string::StringExecFns;

verus! {

/// One step of a [`Path`]: the position among the siblings and a discriminator,
/// which tells the kinds of node apart or names the component.
#[derive(Debug, Hash)]
pub struct PathNode {
    index: usize,
    name: String,
}

impl View for PathNode {
    type V = (usize, Seq<char>);

    open spec fn view(&self) -> (usize, Seq<char>) {
        (self.spec_index(), self.spec_name())
    }
}

impl PathNode {
    /// The position among the siblings.
    pub closed spec fn spec_index(&self) -> usize {
        self.index
    }

    /// The discriminator.
    pub closed spec fn spec_name(&self) -> Seq<char> {
        self.name@
    }

    /// A step to the child at `index` with the discriminator `name`.
    pub fn new(index: usize, name: String) -> (node: PathNode)
        ensures
            node@ == (index, name@),
    {
        PathNode { index, name }
    }

    /// The position among the siblings.
    pub fn index(&self) -> (index: usize)
        ensures
            index == self@.0,
    {
        self.index
    }

    /// The discriminator.
    pub fn name(&self) -> (name: &String)
        ensures
            name@ == self@.1,
    {
        &self.name
    }
}

impl Clone for PathNode {
    fn clone(&self) -> (node: PathNode)
        ensures
            node@ == self@,
    {
        PathNode { index: self.index, name: self.name.clone() }
    }
}

impl PartialEq for PathNode {
    fn eq(&self, other: &PathNode) -> (equal: bool) {
        self.index == other.index && self.name == other.name
    }
}

impl Eq for PathNode {

}

impl PartialEqSpecImpl for PathNode {
    open spec fn obeys_eq_spec() -> bool {
        true
    }

    open spec fn eq_spec(&self, other: &PathNode) -> bool {
        self@ == other@
    }
}

/// The plain value of a [`Path`]: its steps, each a position and a
/// discriminator.
pub type PathModel = Seq<(usize, Seq<char>)>;

/// The address of a node: the steps that lead to it from the root. Two paths
/// are equal when their steps are.
#[derive(Debug, Hash)]
pub struct Path {
    nodes: Vec<PathNode>,
}

impl View for Path {
    type V = PathModel;

    closed spec fn view(&self) -> PathModel {
        Seq::new(self.nodes@.len(), |i: int| self.nodes@[i]@)
    }
}

/// The path reached from `prefix` by taking the steps of `route` in order.
pub open spec fn descend(prefix: PathModel, route: PathModel) -> PathModel
    decreases route.len(),
{
    if route.len() == 0 {
        prefix
    } else {
        descend(prefix, route.drop_last()).push(route.last())
    }
}

/// The locator of one step: the child element at position `index`, counted from
/// one as locators do.
pub open spec fn step_locator(index: usize) -> Seq<char> {
    seq!['/', '*', '['] + decimal((index + 1) as nat) + seq![']']
}

/// The locator expression of a path: one element test per step, by position
/// alone. The root has the empty locator.
pub open spec fn locator(path: PathModel) -> Seq<char>
    decreases path.len(),
{
    if path.len() == 0 {
        Seq::empty()
    } else {
        locator(path.drop_last()) + step_locator(path.last().0)
    }
}

/// The positions along a path, without the discriminators.
pub open spec fn positions(path: PathModel) -> Seq<usize> {
    Seq::new(path.len(), |i: int| path[i].0)
}

impl Path {
    /// The empty path, which addresses the root.
    pub fn new() -> (path: Path)
        ensures
            path@ == PathModel::empty(),
    {
        let path = Path { nodes: Vec::new() };
        assert(path@ =~= PathModel::empty());
        path
    }

    /// This path with one more step at its end.
    pub fn concat(self, node: PathNode) -> (path: Path)
        ensures
            path@ == self@.push(node@),
    {
        let ghost before = self@;
        let mut nodes = self.nodes;
        nodes.push(node);
        let path = Path { nodes };
        assert(path@ =~= before.push(node@));
        path
    }

    /// The number of steps.
    pub fn len(&self) -> (len: usize)
        ensures
            len == self@.len(),
    {
        self.nodes.len()
    }

    /// The locator expression that finds the addressed element below the
    /// document's root element: see [`locator`].
    pub fn render(&self) -> (out: String)
        ensures
            out@ == locator(self@),
    {
        let mut out = String::new();
        let mut i: usize = 0;
        assert(self@.take(0) =~= PathModel::empty());
        while i < self.nodes.len()
            invariant
                i <= self.nodes@.len(),
                out@ == locator(self@.take(i as int)),
            decreases self.nodes@.len() - i,
        {
            let ghost before = out@;
            let index: u128 = self.nodes[i].index as u128 + 1;
            out.append("/*[");
            push_decimal(&mut out, index);
            out.append("]");
            proof {
                reveal_strlit("/*[");
                reveal_strlit("]");
                assert("/*["@ =~= seq!['/', '*', '[']);
                assert("]"@ =~= seq![']']);
                let next = self@.take(i as int + 1);
                assert(next.drop_last() =~= self@.take(i as int));
                assert(next.last() == self@[i as int]);
                assert(out@ =~= before + step_locator(self@[i as int].0));
            }
            i += 1;
        }
        assert(self@.take(i as int) =~= self@);
        out
    }
}

impl Clone for Path {
    fn clone(&self) -> (path: Path)
        ensures
            path@ == self@,
    {
        let mut nodes: Vec<PathNode> = Vec::new();
        let mut i: usize = 0;
        while i < self.nodes.len()
            invariant
                i <= self.nodes@.len(),
                nodes@.len() == i,
                forall|k: int| 0 <= k < i ==> (#[trigger] nodes@[k])@ == self.nodes@[k]@,
            decreases self.nodes@.len() - i,
        {
            nodes.push(self.nodes[i].clone());
            i += 1;
        }
        let path = Path { nodes };
        assert(path@ =~= self@);
        path
    }
}

impl PartialEq for Path {
    fn eq(&self, other: &Path) -> (equal: bool) {
        if self.nodes.len() != other.nodes.len() {
            assert(self@.len() != other@.len());
            return false;
        }
        let mut i: usize = 0;
        while i < self.nodes.len()
            invariant
                i <= self.nodes@.len(),
                self.nodes@.len() == other.nodes@.len(),
                forall|k: int| 0 <= k < i ==> (#[trigger] self.nodes@[k])@ == other.nodes@[k]@,
            decreases self.nodes@.len() - i,
        {
            if !(self.nodes[i].index == other.nodes[i].index && self.nodes[i].name
                == other.nodes[i].name) {
                assert(self@[i as int] != other@[i as int]);
                return false;
            }
            i += 1;
        }
        assert(self@ =~= other@);
        true
    }
}

impl Eq for Path {

}

impl PartialEqSpecImpl for Path {
    open spec fn obeys_eq_spec() -> bool {
        true
    }

    open spec fn eq_spec(&self, other: &Path) -> bool {
        self@ == other@
    }
}

/// Taking one more step from two paths gives the same path exactly when the
/// two paths and the two steps are the same.
pub proof fn lemma_concat_injective(
    p: PathModel,
    a: (usize, Seq<char>),
    q: PathModel,
    b: (usize, Seq<char>),
)
    ensures
        p.push(a) == q.push(b) <==> p == q && a == b,
{
    if p.push(a) == q.push(b) {
        assert(p.push(a).drop_last() =~= p);
        assert(q.push(b).drop_last() =~= q);
        assert(p.push(a).last() == a);
        assert(q.push(b).last() == b);
    }
}

/// A descent is its starting point followed by its route.
pub proof fn lemma_descend_is_append(
    prefix: PathModel,
    route: PathModel,
)
    ensures
        descend(prefix, route) == prefix + route,
    decreases route.len(),
{
    if route.len() == 0 {
        assert(prefix + route =~= prefix);
    } else {
        lemma_descend_is_append(prefix, route.drop_last());
        assert((prefix + route.drop_last()).push(route.last()) =~= prefix + route);
    }
}

/// Positional identity: from one starting point, two routes through a tree
/// arrive at the same path exactly when they are the same route.
pub proof fn lemma_path_unique(
    prefix: PathModel,
    first: PathModel,
    second: PathModel,
)
    ensures
        descend(prefix, first) == descend(prefix, second) <==> first == second,
{
    lemma_descend_is_append(prefix, first);
    lemma_descend_is_append(prefix, second);
    if prefix + first == prefix + second {
        assert((prefix + first).len() == prefix.len() + first.len());
        assert((prefix + second).len() == prefix.len() + second.len());
        assert forall|i: int| 0 <= i < first.len() implies first[i] == second[i] by {
            assert((prefix + first)[prefix.len() + i] == first[i]);
            assert((prefix + second)[prefix.len() + i] == second[i]);
        }
        assert(first =~= second);
    }
}

proof fn lemma_step_shape(index: usize)
    ensures
        step_locator(index).len() == 4 + decimal((index + 1) as nat).len(),
        step_locator(index).len() >= 5,
        step_locator(index)[2] == '[',
        forall|i: int| 3 <= i < step_locator(index).len() - 1 ==> is_digit(#[trigger] step_locator(index)[i]),
        step_locator(index).subrange(3, step_locator(index).len() - 1) == decimal((index + 1) as nat),
{
    let digits = decimal((index + 1) as nat);
    let step = step_locator(index);
    lemma_decimal_digits((index + 1) as nat);
    assert(step.len() == 4 + digits.len());
    assert forall|i: int| 3 <= i < step.len() - 1 implies is_digit(#[trigger] step[i]) by {
        assert(step[i] == digits[i - 3]);
    }
    assert(step.subrange(3, step.len() - 1) =~= digits);
}

proof fn lemma_last_step_no_longer(
    front: Seq<char>,
    index: usize,
    other_front: Seq<char>,
    other: usize,
)
    requires
        front + step_locator(index) == other_front + step_locator(other),
    ensures
        step_locator(index).len() >= step_locator(other).len(),
{
    let step = step_locator(index);
    let other_step = step_locator(other);
    let whole = front + step;
    lemma_step_shape(index);
    lemma_step_shape(other);
    assert(whole.len() == front.len() + step.len());
    assert(whole.len() == other_front.len() + other_step.len());
    if step.len() < other_step.len() {
        let at: int = front.len() as int + 2;
        assert(whole[at] == step[2]);
        let within = at - other_front.len();
        assert(3 <= within < other_step.len() - 1);
        assert((other_front + other_step)[at] == other_step[within]);
        assert(is_digit(other_step[within]));
    }
}

/// Two paths have the same locator exactly when they take the same positions:
/// the locator finds one place in the document.
pub proof fn lemma_locator_unique(first: PathModel, second: PathModel)
    ensures
        locator(first) == locator(second) <==> positions(first) == positions(second),
    decreases first.len(),
{
    if positions(first) == positions(second) {
        lemma_locator_of_positions(first, second);
    }
    if locator(first) == locator(second) {
        if first.len() == 0 || second.len() == 0 {
            if first.len() > 0 {
                lemma_step_shape(first.last().0);
            }
            if second.len() > 0 {
                lemma_step_shape(second.last().0);
            }
            assert(positions(first) =~= positions(second));
        } else {
            let front = locator(first.drop_last());
            let other_front = locator(second.drop_last());
            let step = step_locator(first.last().0);
            let other_step = step_locator(second.last().0);
            lemma_last_step_no_longer(front, first.last().0, other_front, second.last().0);
            lemma_last_step_no_longer(other_front, second.last().0, front, first.last().0);
            lemma_step_shape(first.last().0);
            lemma_step_shape(second.last().0);
            let whole = front + step;
            assert(whole.len() == front.len() + step.len());
            assert(whole.len() == other_front.len() + other_step.len());
            assert(step =~= whole.subrange(front.len() as int, whole.len() as int));
            assert(other_step =~= whole.subrange(front.len() as int, whole.len() as int));
            assert(front =~= whole.subrange(0, front.len() as int));
            assert(other_front =~= whole.subrange(0, front.len() as int));
            lemma_decimal_injective((first.last().0 + 1) as nat, (second.last().0 + 1) as nat);
            lemma_locator_unique(first.drop_last(), second.drop_last());
            let a = positions(first);
            let b = positions(second);
            assert(positions(first.drop_last()).len() == first.len() - 1);
            assert(positions(second.drop_last()).len() == second.len() - 1);
            assert forall|i: int| 0 <= i < a.len() implies a[i] == b[i] by {
                if i < a.len() - 1 {
                    assert(positions(first.drop_last())[i] == a[i]);
                    assert(positions(second.drop_last())[i] == b[i]);
                }
            }
            assert(a =~= b);
        }
    }
}

proof fn lemma_locator_of_positions(first: PathModel, second: PathModel)
    requires
        positions(first) == positions(second),
    ensures
        locator(first) == locator(second),
    decreases first.len(),
{
    assert(first.len() == positions(first).len());
    assert(second.len() == positions(second).len());
    if first.len() > 0 {
        let a = positions(first.drop_last());
        let b = positions(second.drop_last());
        assert forall|i: int| 0 <= i < a.len() implies a[i] == b[i] by {
            assert(positions(first)[i] == a[i]);
            assert(positions(second)[i] == b[i]);
        }
        assert(a =~= b);
        lemma_locator_of_positions(first.drop_last(), second.drop_last());
        assert(positions(first)[first.len() - 1] == first.last().0);
        assert(positions(second)[second.len() - 1] == second.last().0);
    }
}

} // verus!
