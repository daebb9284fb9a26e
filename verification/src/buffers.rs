//! The operand stack and its partitions.
//!
//! Values are pushed and popped at the front.  A partition overlays a fresh
//! stack on the ones below it: writes go to the overlay, reads fall through to
//! the stacks below, and nothing below the overlay ever changes.
use std::collections::VecDeque;
use vstd::prelude::*;
use crate::model::Array;
use crate::model::CreateAny;
use crate::model::ValueView;
use crate::model::clone_values;
use crate::model::values_view;
use crate::scope::option_view;
use crate::scalar::Buffer;

verus! {

/// One operand stack; index 0 is the front.
pub type Buffers = VecDeque<CreateAny>;

/// A stack of operand stacks.  `new` is the overlay that takes every write;
/// `prev` holds the stacks it hides, the outermost first.
pub struct PartitionedBuffers {
    pub prev: Vec<Buffers>,
    pub new: Buffers,
}

/// The model of a stack of operand stacks.
pub struct BuffersView {
    pub prev: Seq<Seq<ValueView>>,
    pub new: Seq<ValueView>,
}

/// The models of the hidden stacks.
pub open spec fn layers_view(s: Seq<Buffers>) -> Seq<Seq<ValueView>> {
    Seq::new(s.len(), |i: int| values_view(s[i]@))
}

/// The value at `index` counted from the front of the innermost hidden stack.
pub open spec fn layers_get(prev: Seq<Seq<ValueView>>, index: int) -> Option<ValueView>
    decreases prev.len(),
{
    if prev.len() == 0 || index < 0 {
        None
    } else if index < prev.last().len() {
        Some(prev.last()[index])
    } else {
        layers_get(prev.drop_last(), index - prev.last().len())
    }
}

/// The items of `s` in reverse order.
pub open spec fn reversed(s: Seq<ValueView>) -> Seq<ValueView> {
    Seq::new(s.len(), |i: int| s[s.len() - 1 - i])
}

impl BuffersView {
    /// The value at `index`: the overlay first, then the stacks below.
    pub open spec fn get(self, index: int) -> Option<ValueView> {
        if 0 <= index < self.new.len() {
            Some(self.new[index])
        } else {
            layers_get(self.prev, index - self.new.len())
        }
    }

    /// The scalar at `index`, if the value there is one.
    pub open spec fn get_buf(self, index: int) -> Option<Buffer> {
        match self.get(index) {
            Some(ValueView::Scalar(b)) => Some(b),
            _ => None,
        }
    }

    /// The array at `index`, if the value there is one.
    pub open spec fn get_arr(self, index: int) -> Option<Seq<ValueView>> {
        match self.get(index) {
            Some(ValueView::Array(a)) => Some(a),
            _ => None,
        }
    }

    /// The stack after a value is pushed at the front of the overlay.
    pub open spec fn push(self, value: ValueView) -> BuffersView {
        BuffersView { prev: self.prev, new: seq![value] + self.new }
    }

    /// The stack after the front of the overlay is dropped; unchanged when the
    /// overlay is empty.
    pub open spec fn pop(self) -> BuffersView {
        if self.new.len() > 0 {
            BuffersView { prev: self.prev, new: self.new.subrange(1, self.new.len() as int) }
        } else {
            self
        }
    }

    /// A fresh, empty overlay on top of everything.
    pub open spec fn wrap(self) -> BuffersView {
        BuffersView { prev: self.prev.push(self.new), new: Seq::empty() }
    }

    /// What a partitioned evaluation returns: the front of the overlay.
    pub open spec fn get_return(self) -> Option<ValueView> {
        if self.new.len() > 0 {
            Some(self.new[0])
        } else {
            None
        }
    }

    /// The stack without its overlay; unchanged when nothing is hidden.
    pub open spec fn trunc(self) -> BuffersView {
        if self.prev.len() > 0 {
            BuffersView { prev: self.prev.drop_last(), new: self.prev.last() }
        } else {
            self
        }
    }

    /// The stack after the overlay's values have moved, front first, onto the
    /// stack below; unchanged when nothing is hidden.
    pub open spec fn combine(self) -> BuffersView {
        if self.prev.len() > 0 {
            BuffersView { prev: self.prev.drop_last(), new: reversed(self.new) + self.prev.last() }
        } else {
            self
        }
    }

    /// Whether no stack holds a value.
    pub open spec fn is_empty(self) -> bool {
        self.new.len() == 0 && forall|i: int| 0 <= i < self.prev.len() ==> (#[trigger] self.prev[i]).len() == 0
    }
}

/// The number of values in the hidden stacks.
pub open spec fn layers_len(prev: Seq<Seq<ValueView>>) -> nat
    decreases prev.len(),
{
    if prev.len() == 0 {
        0
    } else {
        layers_len(prev.drop_last()) + prev.last().len()
    }
}

impl BuffersView {
    /// The number of values in all stacks.
    pub open spec fn len(self) -> nat {
        self.new.len() + layers_len(self.prev)
    }

    /// The model of a stack that hides nothing.
    pub open spec fn single(items: Seq<ValueView>) -> BuffersView {
        BuffersView { prev: Seq::empty(), new: items }
    }
}

/// An operand stack: values are pushed and popped at the front and read by
/// their distance from it.
pub trait Buffering {
    /// The stacks that this one stands for.
    spec fn stack(&self) -> BuffersView;

    /// A copy of the value at `index`.
    fn get(&self, index: usize) -> (out: Option<CreateAny>)
        ensures
            option_view(out) == self.stack().get(index as int),
    ;

    /// The scalar at `index`; `None` when the value there is of another kind.
    fn get_buf(&self, index: usize) -> (out: Option<Buffer>)
        ensures
            out == self.stack().get_buf(index as int),
    ;

    /// A copy of the array at `index`; `None` when the value there is of
    /// another kind.
    fn get_arr(&self, index: usize) -> (out: Option<Array>)
        ensures
            out is Some == self.stack().get_arr(index as int) is Some,
            out matches Some(a) ==> self.stack().get_arr(index as int) == Some(values_view(a@)),
    ;

    /// Pushes a value at the front.
    fn push(&mut self, value: CreateAny)
        ensures
            final(self).stack() == old(self).stack().push(value@),
    ;

    /// Pushes a scalar at the front.
    fn push_buf(&mut self, value: Buffer)
        ensures
            final(self).stack() == old(self).stack().push(ValueView::Scalar(value)),
    ;

    /// Pushes an array at the front.
    fn push_arr(&mut self, value: Array)
        ensures
            final(self).stack() == old(self).stack().push(ValueView::Array(values_view(value@))),
    ;

    /// Takes the front of the overlay; `None`, and no change, when the overlay
    /// is empty.
    fn pop(&mut self) -> (out: Option<CreateAny>)
        ensures
            final(self).stack() == old(self).stack().pop(),
            option_view(out) == old(self).stack().get_return(),
    ;

    /// The number of values, hidden ones included.
    fn len(&self) -> (out: usize)
        requires
            self.stack().len() <= usize::MAX,
        ensures
            out == self.stack().len(),
    ;

    /// Whether there is no value, hidden ones included.
    fn is_empty(&self) -> (out: bool)
        ensures
            out == self.stack().is_empty(),
    ;
}

impl Buffering for Buffers {
    open spec fn stack(&self) -> BuffersView {
        BuffersView::single(values_view(self@))
    }

    fn get(&self, index: usize) -> (out: Option<CreateAny>) {
        if index < self.len() {
            Some(self[index].duplicate())
        } else {
            None
        }
    }

    fn get_buf(&self, index: usize) -> (out: Option<Buffer>) {
        if index < self.len() {
            match &self[index] {
                CreateAny::BUF(b) => Some(*b),
                _ => None,
            }
        } else {
            None
        }
    }

    fn get_arr(&self, index: usize) -> (out: Option<Array>) {
        if index < self.len() {
            match &self[index] {
                CreateAny::ARR(a) => Some(clone_values(a)),
                _ => None,
            }
        } else {
            None
        }
    }

    fn push(&mut self, value: CreateAny) {
        self.push_front(value);
        proof {
            assert(self.stack().new =~= old(self).stack().push(value@).new);
        }
    }

    fn push_buf(&mut self, value: Buffer) {
        self.push_front(CreateAny::BUF(value));
        proof {
            assert(self.stack().new =~= old(self).stack().push(ValueView::Scalar(value)).new);
        }
    }

    fn push_arr(&mut self, value: Array) {
        let ghost items = values_view(value@);
        self.push_front(CreateAny::ARR(value));
        proof {
            assert(self.stack().new =~= old(self).stack().push(ValueView::Array(items)).new);
        }
    }

    fn pop(&mut self) -> (out: Option<CreateAny>) {
        let out = self.pop_front();
        proof {
            assert(self.stack().new =~= old(self).stack().pop().new);
        }
        out
    }

    fn len(&self) -> (out: usize) {
        VecDeque::len(self)
    }

    fn is_empty(&self) -> (out: bool) {
        VecDeque::len(self) == 0
    }
}

proof fn lemma_layers_len_grows(prev: Seq<Seq<ValueView>>, k: int)
    requires
        0 <= k <= prev.len(),
    ensures
        layers_len(prev.subrange(k, prev.len() as int)) <= layers_len(prev),
    decreases prev.len(),
{
    if prev.len() > 0 {
        if k < prev.len() {
            lemma_layers_len_grows(prev.drop_last(), k);
            assert(prev.subrange(k, prev.len() as int).drop_last() =~= prev.drop_last().subrange(
                k,
                prev.len() - 1,
            ));
        } else {
            assert(prev.subrange(k, prev.len() as int) =~= Seq::<Seq<ValueView>>::empty());
        }
    } else {
        assert(prev.subrange(k, prev.len() as int) =~= prev);
    }
}

impl Buffering for PartitionedBuffers {
    open spec fn stack(&self) -> BuffersView {
        self@
    }

    fn get(&self, index: usize) -> (out: Option<CreateAny>) {
        PartitionedBuffers::get(self, index)
    }

    fn get_buf(&self, index: usize) -> (out: Option<Buffer>) {
        PartitionedBuffers::get_buf(self, index)
    }

    fn get_arr(&self, index: usize) -> (out: Option<Array>) {
        PartitionedBuffers::get_arr(self, index)
    }

    fn push(&mut self, value: CreateAny) {
        PartitionedBuffers::push(self, value)
    }

    fn push_buf(&mut self, value: Buffer) {
        PartitionedBuffers::push_buf(self, value)
    }

    fn push_arr(&mut self, value: Array) {
        PartitionedBuffers::push_arr(self, value)
    }

    fn pop(&mut self) -> (out: Option<CreateAny>) {
        PartitionedBuffers::pop(self)
    }

    fn len(&self) -> (out: usize) {
        let mut total: usize = VecDeque::len(&self.new);
        let mut k: usize = self.prev.len();
        proof {
            assert(self@.prev.subrange(k as int, self@.prev.len() as int) =~= Seq::<Seq<ValueView>>::empty());
        }
        while k > 0
            invariant
                k <= self.prev.len(),
                self@.len() <= usize::MAX,
                total == self@.new.len() + layers_len(self@.prev.subrange(k as int, self@.prev.len() as int)),
            decreases k,
        {
            k = k - 1;
            proof {
                lemma_layers_from(self@.prev, k as int);
                lemma_layers_len_grows(self@.prev, k as int);
            }
            total = total + VecDeque::len(&self.prev[k]);
        }
        proof {
            assert(self@.prev.subrange(0, self@.prev.len() as int) =~= self@.prev);
        }
        total
    }

    fn is_empty(&self) -> (out: bool) {
        PartitionedBuffers::is_empty(self)
    }
}

/// The hidden stacks from `k` on hold the values of the stack at `k` and of
/// those after it.
proof fn lemma_layers_from(prev: Seq<Seq<ValueView>>, k: int)
    requires
        0 <= k < prev.len(),
    ensures
        layers_len(prev.subrange(k, prev.len() as int)) == prev[k].len() + layers_len(
            prev.subrange(k + 1, prev.len() as int),
        ),
    decreases prev.len() - k,
{
    let from = prev.subrange(k, prev.len() as int);
    let after = prev.subrange(k + 1, prev.len() as int);
    if k + 1 == prev.len() {
        assert(from.drop_last() =~= Seq::<Seq<ValueView>>::empty());
        assert(after =~= Seq::<Seq<ValueView>>::empty());
    } else {
        lemma_layers_from(prev.drop_last(), k);
        assert(from.drop_last() =~= prev.drop_last().subrange(k, prev.len() - 1));
        assert(after.drop_last() =~= prev.drop_last().subrange(k + 1, prev.len() - 1));
    }
}

/// What a partition hides stays as it is: pushes and pops on the overlay leave
/// the hidden stacks alone, and dropping the overlay gives back the stack that
/// was wrapped.
pub proof fn law_partition_keeps_parent(parent: BuffersView, inside: BuffersView, value: ValueView)
    requires
        inside.prev == parent.wrap().prev,
    ensures
        parent.wrap().trunc() == parent,
        inside.push(value).prev == parent.wrap().prev,
        inside.pop().prev == parent.wrap().prev,
        inside.trunc() == parent,
        inside.push(value).trunc() == parent,
        inside.pop().trunc() == parent,
{
    assert(parent.wrap().prev.drop_last() =~= parent.prev);
}

/// A read past the overlay of a partition finds what the wrapped stack holds
/// there.
pub proof fn law_partition_reads_through(parent: BuffersView, index: int)
    requires
        0 <= index,
    ensures
        parent.wrap().get(index) == parent.get(index),
{
    let w = parent.wrap();
    assert(w.prev.last() == parent.new);
    assert(w.prev.drop_last() =~= parent.prev);
}

impl View for PartitionedBuffers {
    type V = BuffersView;

    open spec fn view(&self) -> BuffersView {
        BuffersView { prev: layers_view(self.prev@), new: values_view(self.new@) }
    }
}

impl PartitionedBuffers {
    /// A single empty stack with nothing below it.
    pub fn empty() -> (out: PartitionedBuffers)
        ensures
            out@ == (BuffersView { prev: Seq::empty(), new: Seq::empty() }),
    {
        let out = PartitionedBuffers { prev: Vec::new(), new: VecDeque::new() };
        proof {
            assert(out@.prev =~= Seq::empty());
            assert(out@.new =~= Seq::empty());
        }
        out
    }

    /// Overlays a fresh, empty stack on `prev`.
    pub fn new(prev: PartitionedBuffers) -> (out: PartitionedBuffers)
        ensures
            out@ == prev@.wrap(),
    {
        let mut layers = prev.prev;
        layers.push(prev.new);
        let out = PartitionedBuffers { prev: layers, new: VecDeque::new() };
        proof {
            assert(out@.prev =~= prev@.wrap().prev);
            assert(out@.new =~= prev@.wrap().new);
        }
        out
    }

    /// Overlays a fresh, empty stack in place.
    pub fn enter(&mut self)
        ensures
            final(self)@ == old(self)@.wrap(),
    {
        let mut covered: Buffers = VecDeque::new();
        std::mem::swap(&mut self.new, &mut covered);
        self.prev.push(covered);
        proof {
            assert(self@.prev =~= old(self)@.wrap().prev);
            assert(self@.new =~= old(self)@.wrap().new);
        }
    }

    /// Drops the overlay in place; no change when nothing is hidden.
    pub fn leave(&mut self)
        ensures
            final(self)@ == old(self)@.trunc(),
    {
        match self.prev.pop() {
            Some(top) => {
                self.new = top;
                proof {
                    assert(self@.prev =~= old(self)@.trunc().prev);
                }
            },
            None => {},
        }
    }

    fn locate(&self, index: usize) -> (out: Option<&CreateAny>)
        ensures
            out is Some == self@.get(index as int) is Some,
            out matches Some(v) ==> self@.get(index as int) == Some(v@),
    {
        if index < self.new.len() {
            return Some(&self.new[index]);
        }
        let mut rest: usize = index - self.new.len();
        let mut k: usize = self.prev.len();
        proof {
            assert(self@.prev.subrange(0, k as int) =~= self@.prev);
        }
        while k > 0
            invariant
                k <= self.prev.len(),
                self@.get(index as int) == layers_get(self@.prev.subrange(0, k as int), rest as int),
            decreases k,
        {
            k = k - 1;
            proof {
                let s = self@.prev.subrange(0, k + 1);
                assert(s.last() == values_view(self.prev@[k as int]@));
                assert(s.drop_last() =~= self@.prev.subrange(0, k as int));
            }
            if rest < self.prev[k].len() {
                return Some(&self.prev[k][rest]);
            }
            rest = rest - self.prev[k].len();
        }
        None
    }

    /// A copy of the value at `index`.
    pub fn get(&self, index: usize) -> (out: Option<CreateAny>)
        ensures
            option_view(out) == self@.get(index as int),
    {
        match self.locate(index) {
            Some(v) => Some(v.duplicate()),
            None => None,
        }
    }

    /// The scalar at `index`; `None` when the value there is of another kind.
    pub fn get_buf(&self, index: usize) -> (out: Option<Buffer>)
        ensures
            out == self@.get_buf(index as int),
    {
        match self.locate(index) {
            Some(CreateAny::BUF(b)) => Some(*b),
            _ => None,
        }
    }

    /// A copy of the array at `index`; `None` when the value there is of
    /// another kind.
    pub fn get_arr(&self, index: usize) -> (out: Option<Array>)
        ensures
            out is Some == self@.get_arr(index as int) is Some,
            out matches Some(a) ==> self@.get_arr(index as int) == Some(values_view(a@)),
    {
        match self.locate(index) {
            Some(CreateAny::ARR(a)) => Some(clone_values(a)),
            _ => None,
        }
    }

    /// Pushes a value at the front of the overlay.
    pub fn push(&mut self, value: CreateAny)
        ensures
            final(self)@ == old(self)@.push(value@),
    {
        self.new.push_front(value);
        proof {
            assert(self@.new =~= old(self)@.push(value@).new);
        }
    }

    /// Pushes a scalar at the front of the overlay.
    pub fn push_buf(&mut self, value: Buffer)
        ensures
            final(self)@ == old(self)@.push(ValueView::Scalar(value)),
    {
        self.push(CreateAny::BUF(value));
    }

    /// Pushes an array at the front of the overlay.
    pub fn push_arr(&mut self, value: Array)
        ensures
            final(self)@ == old(self)@.push(ValueView::Array(values_view(value@))),
    {
        self.push(CreateAny::ARR(value));
    }

    /// Takes the front of the overlay; `None`, and no change, when the overlay
    /// is empty, whatever lies below it.
    pub fn pop(&mut self) -> (out: Option<CreateAny>)
        ensures
            final(self)@ == old(self)@.pop(),
            option_view(out) == old(self)@.get_return(),
    {
        let out = self.new.pop_front();
        proof {
            assert(self@.new =~= old(self)@.pop().new);
        }
        out
    }

    /// Whether no stack holds a value.
    pub fn is_empty(&self) -> (out: bool)
        ensures
            out == self@.is_empty(),
    {
        if self.new.len() != 0 {
            return false;
        }
        let mut k: usize = 0;
        while k < self.prev.len()
            invariant
                k <= self.prev.len(),
                forall|i: int| 0 <= i < k ==> (#[trigger] self@.prev[i]).len() == 0,
            decreases self.prev.len() - k,
        {
            if self.prev[k].len() != 0 {
                proof {
                    assert(self@.prev[k as int].len() != 0);
                }
                return false;
            }
            k = k + 1;
        }
        true
    }

    /// A copy of the front of the overlay: the result of the evaluation that
    /// ran in this partition.
    pub fn get_return(&self) -> (out: Option<CreateAny>)
        ensures
            option_view(out) == self@.get_return(),
    {
        if self.new.len() > 0 {
            Some(self.new[0].duplicate())
        } else {
            None
        }
    }

    /// The scalar at the front of the overlay, if the value there is one.
    pub fn get_return_buf(&self) -> (out: Option<Buffer>)
        ensures
            out == match self@.get_return() {
                Some(ValueView::Scalar(b)) => Some(b),
                _ => None::<Buffer>,
            },
    {
        if self.new.len() > 0 {
            match &self.new[0] {
                CreateAny::BUF(b) => Some(*b),
                _ => None,
            }
        } else {
            None
        }
    }

    /// A copy of the array at the front of the overlay, if the value there is
    /// one.
    pub fn get_return_arr(&self) -> (out: Option<Array>)
        ensures
            out is Some == (self@.get_return() matches Some(ValueView::Array(_))),
            out matches Some(a) ==> self@.get_return() == Some(ValueView::Array(values_view(a@))),
    {
        if self.new.len() > 0 {
            match &self.new[0] {
                CreateAny::ARR(a) => Some(clone_values(a)),
                _ => None,
            }
        } else {
            None
        }
    }

    /// Drops the overlay and gives back what it covered.
    pub fn trunc(self) -> (out: PartitionedBuffers)
        ensures
            out@ == self@.trunc(),
    {
        let mut layers = self.prev;
        match layers.pop() {
            Some(top) => {
                let out = PartitionedBuffers { prev: layers, new: top };
                proof {
                    assert(out@.prev =~= self@.trunc().prev);
                }
                out
            },
            None => PartitionedBuffers { prev: layers, new: self.new },
        }
    }

    /// Moves the overlay's values, front first, onto the stack below and gives
    /// that stack back.
    pub fn combine(self) -> (out: PartitionedBuffers)
        ensures
            out@ == self@.combine(),
    {
        let mut layers = self.prev;
        let mut overlay = self.new;
        match layers.pop() {
            Some(top) => {
                let mut below = top;
                let ghost moved: int = 0;
                let ghost all = overlay@;
                let ghost base = below@;
                while overlay.len() > 0
                    invariant
                        0 <= moved <= all.len(),
                        overlay@ == all.subrange(moved, all.len() as int),
                        below@.len() == moved + base.len(),
                        forall|i: int| 0 <= i < moved ==> below@[i] == all[moved - 1 - i],
                        forall|i: int| 0 <= i < base.len() ==> below@[moved + i] == base[i],
                    decreases overlay.len(),
                {
                    let item = overlay.pop_front();
                    match item {
                        Some(v) => {
                            below.push_front(v);
                        },
                        None => {},
                    }
                    proof {
                        moved = moved + 1;
                    }
                }
                let out = PartitionedBuffers { prev: layers, new: below };
                proof {
                    assert(out@.prev =~= self@.combine().prev);
                    assert(out@.new =~= self@.combine().new);
                }
                out
            },
            None => PartitionedBuffers { prev: layers, new: overlay },
        }
    }
}

} // verus!
