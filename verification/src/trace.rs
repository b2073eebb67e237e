//! What a value must offer to live in the managed heap: it names the heap
//! references that it holds, and it cleans up once before its cell is
//! reclaimed.
//!
//! A value of several parts hands both requests on to each part, a container
//! to each element. A value that holds no heap reference names none, and its
//! cleanup does nothing.

use vstd::prelude::*;
use std::collections::VecDeque;
use std::rc::Rc;

verus! {

/// The work stack of the marking phase: the addresses of cells that have been
/// named as referenced and still wait to be visited.
pub struct Tracer {
    pending: Vec<usize>,
}

impl View for Tracer {
    type V = Seq<usize>;

    closed spec fn view(&self) -> Seq<usize> {
        self.pending@
    }
}

impl Tracer {
    pub fn new() -> (tracer: Tracer)
        ensures
            tracer@ == Seq::<usize>::empty(),
    {
        Tracer { pending: Vec::new() }
    }

    /// Names the cell at `addr` as referenced.
    pub fn mark(&mut self, addr: usize)
        ensures
            final(self)@ == old(self)@.push(addr),
    {
        self.pending.push(addr);
    }

    /// Takes the address named last off the stack.
    pub fn pop(&mut self) -> (addr: Option<usize>)
        ensures
            old(self)@.len() == 0 ==> addr is None && final(self)@ == old(self)@,
            old(self)@.len() > 0 ==> addr == Some(old(self)@.last()) && final(self)@ == old(self)@.drop_last(),
    {
        self.pending.pop()
    }

    pub fn len(&self) -> (n: usize)
        ensures
            n == self@.len(),
    {
        self.pending.len()
    }

    /// The addresses that wait to be visited, oldest first.
    pub fn pending(&self) -> (addrs: &Vec<usize>)
        ensures
            addrs@ == self@,
    {
        &self.pending
    }
}

/// Cleanup that runs once, just before the cell that holds the value is
/// reclaimed.
pub trait Finalize: Sized {
    /// How the value after its cleanup relates to the value before. Unless
    /// a type says more, nothing is known of it.
    open spec fn finalized(pre: Self, post: Self) -> bool {
        true
    }

    fn finalize(&mut self)
        ensures
            Self::finalized(*old(self), *final(self)),
    ;
}

/// A value that can live in the managed heap.
pub trait GcTrace: Finalize {
    /// The addresses of the cells that the value refers to directly, in the
    /// order in which `trace` names them. Unless a type says otherwise, it
    /// refers to none.
    open spec fn refs(&self) -> Seq<usize> {
        Seq::empty()
    }

    /// Names every heap reference that the value holds directly.
    fn trace(&self, tracer: &mut Tracer)
        ensures
            final(tracer)@ == old(tracer)@ + self.refs(),
    ;
}

impl Finalize for () {
    open spec fn finalized(pre: Self, post: Self) -> bool {
        post == pre
    }

    fn finalize(&mut self) {
    }
}

impl GcTrace for () {
    open spec fn refs(&self) -> Seq<usize> {
        Seq::empty()
    }

    fn trace(&self, tracer: &mut Tracer) {
    }
}

impl Finalize for bool {
    open spec fn finalized(pre: Self, post: Self) -> bool {
        post == pre
    }

    fn finalize(&mut self) {
    }
}

impl GcTrace for bool {
    open spec fn refs(&self) -> Seq<usize> {
        Seq::empty()
    }

    fn trace(&self, tracer: &mut Tracer) {
    }
}

impl Finalize for char {
    open spec fn finalized(pre: Self, post: Self) -> bool {
        post == pre
    }

    fn finalize(&mut self) {
    }
}

impl GcTrace for char {
    open spec fn refs(&self) -> Seq<usize> {
        Seq::empty()
    }

    fn trace(&self, tracer: &mut Tracer) {
    }
}

impl Finalize for u8 {
    open spec fn finalized(pre: Self, post: Self) -> bool {
        post == pre
    }

    fn finalize(&mut self) {
    }
}

impl GcTrace for u8 {
    open spec fn refs(&self) -> Seq<usize> {
        Seq::empty()
    }

    fn trace(&self, tracer: &mut Tracer) {
    }
}

impl Finalize for u16 {
    open spec fn finalized(pre: Self, post: Self) -> bool {
        post == pre
    }

    fn finalize(&mut self) {
    }
}

impl GcTrace for u16 {
    open spec fn refs(&self) -> Seq<usize> {
        Seq::empty()
    }

    fn trace(&self, tracer: &mut Tracer) {
    }
}

impl Finalize for u32 {
    open spec fn finalized(pre: Self, post: Self) -> bool {
        post == pre
    }

    fn finalize(&mut self) {
    }
}

impl GcTrace for u32 {
    open spec fn refs(&self) -> Seq<usize> {
        Seq::empty()
    }

    fn trace(&self, tracer: &mut Tracer) {
    }
}

impl Finalize for u64 {
    open spec fn finalized(pre: Self, post: Self) -> bool {
        post == pre
    }

    fn finalize(&mut self) {
    }
}

impl GcTrace for u64 {
    open spec fn refs(&self) -> Seq<usize> {
        Seq::empty()
    }

    fn trace(&self, tracer: &mut Tracer) {
    }
}

impl Finalize for u128 {
    open spec fn finalized(pre: Self, post: Self) -> bool {
        post == pre
    }

    fn finalize(&mut self) {
    }
}

impl GcTrace for u128 {
    open spec fn refs(&self) -> Seq<usize> {
        Seq::empty()
    }

    fn trace(&self, tracer: &mut Tracer) {
    }
}

impl Finalize for usize {
    open spec fn finalized(pre: Self, post: Self) -> bool {
        post == pre
    }

    fn finalize(&mut self) {
    }
}

impl GcTrace for usize {
    open spec fn refs(&self) -> Seq<usize> {
        Seq::empty()
    }

    fn trace(&self, tracer: &mut Tracer) {
    }
}

impl Finalize for i8 {
    open spec fn finalized(pre: Self, post: Self) -> bool {
        post == pre
    }

    fn finalize(&mut self) {
    }
}

impl GcTrace for i8 {
    open spec fn refs(&self) -> Seq<usize> {
        Seq::empty()
    }

    fn trace(&self, tracer: &mut Tracer) {
    }
}

impl Finalize for i16 {
    open spec fn finalized(pre: Self, post: Self) -> bool {
        post == pre
    }

    fn finalize(&mut self) {
    }
}

impl GcTrace for i16 {
    open spec fn refs(&self) -> Seq<usize> {
        Seq::empty()
    }

    fn trace(&self, tracer: &mut Tracer) {
    }
}

impl Finalize for i32 {
    open spec fn finalized(pre: Self, post: Self) -> bool {
        post == pre
    }

    fn finalize(&mut self) {
    }
}

impl GcTrace for i32 {
    open spec fn refs(&self) -> Seq<usize> {
        Seq::empty()
    }

    fn trace(&self, tracer: &mut Tracer) {
    }
}

impl Finalize for i64 {
    open spec fn finalized(pre: Self, post: Self) -> bool {
        post == pre
    }

    fn finalize(&mut self) {
    }
}

impl GcTrace for i64 {
    open spec fn refs(&self) -> Seq<usize> {
        Seq::empty()
    }

    fn trace(&self, tracer: &mut Tracer) {
    }
}

impl Finalize for i128 {
    open spec fn finalized(pre: Self, post: Self) -> bool {
        post == pre
    }

    fn finalize(&mut self) {
    }
}

impl GcTrace for i128 {
    open spec fn refs(&self) -> Seq<usize> {
        Seq::empty()
    }

    fn trace(&self, tracer: &mut Tracer) {
    }
}

impl Finalize for isize {
    open spec fn finalized(pre: Self, post: Self) -> bool {
        post == pre
    }

    fn finalize(&mut self) {
    }
}

impl GcTrace for isize {
    open spec fn refs(&self) -> Seq<usize> {
        Seq::empty()
    }

    fn trace(&self, tracer: &mut Tracer) {
    }
}

impl Finalize for String {
    open spec fn finalized(pre: Self, post: Self) -> bool {
        post == pre
    }

    fn finalize(&mut self) {
    }
}

impl GcTrace for String {
    open spec fn refs(&self) -> Seq<usize> {
        Seq::empty()
    }

    fn trace(&self, tracer: &mut Tracer) {
    }
}

impl<T: Finalize> Finalize for Option<T> {
    open spec fn finalized(pre: Self, post: Self) -> bool {
        match pre {
            Some(before) => post matches Some(after) && T::finalized(before, after),
            None => post is None,
        }
    }

    fn finalize(&mut self) {
        match self {
            Some(v) => v.finalize(),
            None => {},
        }
    }
}

impl<T: GcTrace> GcTrace for Option<T> {
    open spec fn refs(&self) -> Seq<usize> {
        match self {
            Some(v) => v.refs(),
            None => Seq::empty(),
        }
    }

    fn trace(&self, tracer: &mut Tracer) {
        match self {
            Some(v) => v.trace(tracer),
            None => {},
        }
    }
}

impl<T: Finalize, E: Finalize> Finalize for Result<T, E> {
    open spec fn finalized(pre: Self, post: Self) -> bool {
        match pre {
            Ok(before) => post matches Ok(after) && T::finalized(before, after),
            Err(before) => post matches Err(after) && E::finalized(before, after),
        }
    }

    fn finalize(&mut self) {
        match self {
            Ok(v) => v.finalize(),
            Err(e) => e.finalize(),
        }
    }
}

impl<T: GcTrace, E: GcTrace> GcTrace for Result<T, E> {
    open spec fn refs(&self) -> Seq<usize> {
        match self {
            Ok(v) => v.refs(),
            Err(e) => e.refs(),
        }
    }

    fn trace(&self, tracer: &mut Tracer) {
        match self {
            Ok(v) => v.trace(tracer),
            Err(e) => e.trace(tracer),
        }
    }
}

impl<T: Finalize> Finalize for Box<T> {
    open spec fn finalized(pre: Self, post: Self) -> bool {
        T::finalized(*pre, *post)
    }

    fn finalize(&mut self) {
        (**self).finalize();
    }
}

impl<T: GcTrace> GcTrace for Box<T> {
    open spec fn refs(&self) -> Seq<usize> {
        (**self).refs()
    }

    fn trace(&self, tracer: &mut Tracer) {
        (**self).trace(tracer);
    }
}

/// A value behind a counted pointer may have other owners, so the cleanup of
/// one pointer to it leaves the value alone.
impl<T: Finalize> Finalize for Rc<T> {
    open spec fn finalized(pre: Self, post: Self) -> bool {
        post == pre
    }

    fn finalize(&mut self) {
    }
}

impl<T: GcTrace> GcTrace for Rc<T> {
    open spec fn refs(&self) -> Seq<usize> {
        (**self).refs()
    }

    fn trace(&self, tracer: &mut Tracer) {
        (**self).trace(tracer);
    }
}

/// The references of the first `n` elements, one element after the other.
pub open spec fn refs_of_elements<T: GcTrace>(elements: Seq<T>, n: int) -> Seq<usize>
    decreases n,
{
    if n <= 0 {
        Seq::empty()
    } else {
        refs_of_elements(elements, n - 1) + elements[n - 1].refs()
    }
}

impl<T: Finalize> Finalize for Vec<T> {
    open spec fn finalized(pre: Self, post: Self) -> bool {
        &&& post@.len() == pre@.len()
        &&& forall|i: int| 0 <= i < pre@.len() ==> T::finalized(#[trigger] pre@[i], post@[i])
    }

    fn finalize(&mut self) {
        let n = self.len();
        let mut i: usize = 0;
        while i < n
            invariant
                i <= n,
                n == self@.len(),
                n == old(self)@.len(),
                forall|j: int| 0 <= j < i ==> T::finalized(#[trigger] old(self)@[j], self@[j]),
                forall|j: int| i <= j < n ==> self@[j] == old(self)@[j],
            decreases n - i,
        {
            self[i].finalize();
            i = i + 1;
        }
    }
}

impl<T: GcTrace> GcTrace for Vec<T> {
    open spec fn refs(&self) -> Seq<usize> {
        refs_of_elements(self@, self@.len() as int)
    }

    fn trace(&self, tracer: &mut Tracer) {
        let n = self.len();
        let mut i: usize = 0;
        while i < n
            invariant
                i <= n,
                n == self@.len(),
                tracer@ == old(tracer)@ + refs_of_elements(self@, i as int),
            decreases n - i,
        {
            self[i].trace(tracer);
            i = i + 1;
        }
    }
}

impl<T: Finalize> Finalize for VecDeque<T> {
    open spec fn finalized(pre: Self, post: Self) -> bool {
        &&& post@.len() == pre@.len()
        &&& forall|i: int| 0 <= i < pre@.len() ==> T::finalized(#[trigger] pre@[i], post@[i])
    }

    /// Cleans up the elements from the front to the back: each in turn
    /// leaves at the front and comes back in at the back.
    fn finalize(&mut self) {
        let n = self.len();
        let mut i: usize = 0;
        while i < n
            invariant
                i <= n,
                n == self@.len(),
                n == old(self)@.len(),
                forall|j: int| 0 <= j < n - i ==> self@[j] == old(self)@[i + j],
                forall|j: int|
                    0 <= j < i ==> T::finalized(#[trigger] old(self)@[j], self@[n - i + j]),
            decreases n - i,
        {
            let ghost before = self@;
            match self.pop_front() {
                Some(element) => {
                    let mut element = element;
                    element.finalize();
                    self.push_back(element);
                    assert forall|j: int| 0 <= j < i + 1 implies T::finalized(
                        #[trigger] old(self)@[j],
                        self@[n - (i + 1) + j],
                    ) by {
                        if j < i {
                            assert(self@[n - (i + 1) + j] == before[n - i + j]);
                        }
                    }
                },
                None => {},
            }
            i = i + 1;
        }
    }
}

impl<T: GcTrace> GcTrace for VecDeque<T> {
    open spec fn refs(&self) -> Seq<usize> {
        refs_of_elements(self@, self@.len() as int)
    }

    fn trace(&self, tracer: &mut Tracer) {
        let n = self.len();
        let mut i: usize = 0;
        while i < n
            invariant
                i <= n,
                n == self@.len(),
                tracer@ == old(tracer)@ + refs_of_elements(self@, i as int),
            decreases n - i,
        {
            self[i].trace(tracer);
            i = i + 1;
        }
    }
}

} // verus!
