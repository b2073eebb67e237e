//! A doubly linked list whose nodes live in the managed heap.
//!
//! A list is itself a cell of the heap, and so is each of its nodes; both
//! are cells whose payload can be moved out, which is how a node hands over
//! its value when it is popped.

use vstd::prelude::*;
use vstd::layout::size_of;
use crate::cell::{CellView, GcBox};
use crate::gc::{allocation, allocation_base, Gc};
use crate::heap::{GcState, HeapView};
use crate::reference::GcNullableRef;
use crate::roots::{root_addrs, roots_of_chain, ShadowStack};
use crate::trace::{Finalize, GcTrace, Tracer};

verus! {

/// What lives in the heap of a list: lists and their nodes.
pub enum ListCell<T> {
    List(List<T>),
    Node(Node<T>),
}

pub struct List<T> {
    head: Option<GcNullableRef<ListCell<T>>>,
    /// The addresses of the nodes, from the head on.
    nodes: Ghost<Seq<usize>>,
}

pub struct Node<T> {
    value: T,
    prev: Option<GcNullableRef<ListCell<T>>>,
    next: Option<GcNullableRef<ListCell<T>>>,
    /// The addresses of the nodes that follow this one.
    rest: Ghost<Seq<usize>>,
}

/// The address that an optional reference names.
pub open spec fn addr_of<T>(link: Option<GcNullableRef<ListCell<T>>>) -> Option<usize> {
    match link {
        Some(gc_ref) => Some(gc_ref@),
        None => None,
    }
}

/// The first of a sequence of addresses, if there is one.
pub open spec fn first_of(addrs: Seq<usize>) -> Option<usize> {
    if addrs.len() > 0 {
        Some(addrs[0])
    } else {
        None
    }
}

impl<T> Finalize for List<T> {
    open spec fn finalized(pre: Self, post: Self) -> bool {
        post == pre
    }

    fn finalize(&mut self) {
    }
}

impl<T> GcTrace for List<T> {
    /// A list refers to its first node.
    closed spec fn refs(&self) -> Seq<usize> {
        match self.head {
            None => Seq::empty(),
            Some(n) => seq![n@],
        }
    }

    fn trace(&self, tracer: &mut Tracer) {
        match self.head {
            None => {
                assert(tracer@ + Seq::<usize>::empty() == tracer@);
            },
            Some(n) => {
                n.trace(tracer);
            },
        }
    }
}

impl<T: Finalize> Finalize for Node<T> {
    /// The value of a node is cleaned up with the node.
    closed spec fn finalized(pre: Self, post: Self) -> bool {
        &&& T::finalized(pre.value, post.value)
        &&& post.prev == pre.prev
        &&& post.next == pre.next
        &&& post.rest == pre.rest
    }

    fn finalize(&mut self) {
        self.value.finalize();
    }
}

impl<T: GcTrace> GcTrace for Node<T> {
    /// A node refers to what its value refers to, and to the node after it.
    closed spec fn refs(&self) -> Seq<usize> {
        self.value.refs() + (match self.next {
            None => Seq::empty(),
            Some(n) => seq![n@],
        })
    }

    fn trace(&self, tracer: &mut Tracer) {
        self.value.trace(tracer);
        match self.next {
            None => {
                assert(tracer@ + Seq::<usize>::empty() == tracer@);
            },
            Some(n) => {
                let ghost before = tracer@;
                n.trace(tracer);
                assert(old(tracer)@ + (self.value.refs() + seq![n@]) == before + seq![n@]);
            },
        }
    }
}

impl<T: Finalize> Finalize for ListCell<T> {
    open spec fn finalized(pre: Self, post: Self) -> bool {
        match pre {
            ListCell::List(before) => post matches ListCell::List(after) && List::<T>::finalized(
                before,
                after,
            ),
            ListCell::Node(before) => post matches ListCell::Node(after) && Node::<T>::finalized(
                before,
                after,
            ),
        }
    }

    fn finalize(&mut self) {
        match self {
            ListCell::List(list) => list.finalize(),
            ListCell::Node(node) => node.finalize(),
        }
    }
}

impl<T: GcTrace> GcTrace for ListCell<T> {
    open spec fn refs(&self) -> Seq<usize> {
        match self {
            ListCell::List(list) => list.refs(),
            ListCell::Node(node) => node.refs(),
        }
    }

    fn trace(&self, tracer: &mut Tracer) {
        match self {
            ListCell::List(list) => list.trace(tracer),
            ListCell::Node(node) => node.trace(tracer),
        }
    }
}

impl<T> Node<T> {
    /// The value that the node carries.
    pub closed spec fn value(&self) -> T {
        self.value
    }

    /// The address of the node before this one.
    pub closed spec fn prev(&self) -> Option<usize> {
        addr_of(self.prev)
    }

    /// The address of the node after this one.
    pub closed spec fn next(&self) -> Option<usize> {
        addr_of(self.next)
    }

    /// The addresses of the nodes after this one, nearest first.
    pub closed spec fn rest(&self) -> Seq<usize> {
        self.rest@
    }

    /// The node at position `i` of `nodes` lives in `heap` and is linked to
    /// its neighbours.
    pub open spec fn linked(heap: HeapView<ListCell<T>>, nodes: Seq<usize>, i: int) -> bool {
        &&& heap.holds(nodes[i])
        &&& heap.cells[nodes[i]].nullable
        &&& heap.payload(nodes[i]) matches ListCell::Node(node)
        &&& node.next() == (if i + 1 < nodes.len() {
            Some(nodes[i + 1])
        } else {
            None
        })
        &&& node.rest() == nodes.subrange(i + 1, nodes.len() as int)
        &&& i > 0 ==> node.prev() == Some(nodes[i - 1])
    }

    /// `nodes` are the nodes of a chain in `heap`, each linked to the next.
    pub open spec fn chain(heap: HeapView<ListCell<T>>, nodes: Seq<usize>) -> bool {
        &&& nodes.no_duplicates()
        &&& forall|i: int| 0 <= i < nodes.len() ==> #[trigger] Self::linked(heap, nodes, i)
    }

    /// The values of the nodes at `nodes`, in order.
    pub open spec fn values(heap: HeapView<ListCell<T>>, nodes: Seq<usize>) -> Seq<T> {
        Seq::new(nodes.len(), |i: int| heap.payload(nodes[i])->Node_0.value())
    }

    /// The number of nodes from this one to the end of its chain.
    pub fn len(&self, state: &GcState<ListCell<T>>) -> (len: usize)
        requires
            Self::chain(state@, self.rest()),
            self.next() == first_of(self.rest()),
            self.rest().len() < usize::MAX,
        ensures
            len == 1 + self.rest().len(),
    {
        let ghost rest = self.rest@;
        let mut len: usize = 1;
        let mut next = self.next;
        while next.is_some()
            invariant
                Self::chain(state@, rest),
                rest.len() < usize::MAX,
                1 <= len <= 1 + rest.len(),
                addr_of(next) == (if len - 1 < rest.len() {
                    Some(rest[len as int - 1])
                } else {
                    None
                }),
            decreases rest.len() + 1 - len,
        {
            let n = next.unwrap();
            assert(Self::linked(state@, rest, len as int - 1));
            match n.as_ref(state) {
                ListCell::Node(node) => {
                    next = node.next;
                },
                ListCell::List(_) => {
                    next = None;
                },
            }
            len = len + 1;
        }
        len
    }
}

impl<T> List<T> {
    /// The list that has no node yet.
    pub closed spec fn empty() -> ListCell<T> {
        ListCell::List(List { head: None, nodes: Ghost(Seq::empty()) })
    }

    /// The node that `push` allocates for `value` in front of the list at
    /// `list`.
    pub closed spec fn pushed(heap: HeapView<ListCell<T>>, list: usize, value: T) -> ListCell<T> {
        ListCell::Node(
            Node {
                value,
                prev: None,
                next: heap.payload(list)->List_0.head,
                rest: Ghost(Self::nodes(heap, list)),
            },
        )
    }

    /// The addresses of the nodes of the list at `list`, from the head on.
    pub closed spec fn nodes(heap: HeapView<ListCell<T>>, list: usize) -> Seq<usize> {
        heap.payload(list)->List_0.nodes@
    }

    /// The address of the first node of the list at `list`.
    pub closed spec fn head(heap: HeapView<ListCell<T>>, list: usize) -> Option<usize> {
        addr_of(heap.payload(list)->List_0.head)
    }

    /// A list lives at `list`, and its nodes form a chain in `heap` that
    /// starts at the list's head.
    pub open spec fn inv(heap: HeapView<ListCell<T>>, list: usize) -> bool {
        &&& heap.holds(list)
        &&& heap.payload(list) is List
        &&& Self::head(heap, list) == first_of(Self::nodes(heap, list))
        &&& Node::<T>::chain(heap, Self::nodes(heap, list))
        &&& !Self::nodes(heap, list).contains(list)
    }

    /// The values of the list at `list`, the one pushed last first.
    pub open spec fn elements(heap: HeapView<ListCell<T>>, list: usize) -> Seq<T> {
        Node::<T>::values(heap, Self::nodes(heap, list))
    }

    /// What `is_consistent` tests: a list lives at `list`, and if it
    /// has a first and a second node, the second points back to the first.
    pub open spec fn consistent(heap: HeapView<ListCell<T>>, list: usize) -> bool {
        &&& heap.holds(list)
        &&& heap.payload(list) is List
        &&& Self::head(heap, list) matches Some(first) ==> {
            &&& heap.holds(first)
            &&& heap.payload(first) matches ListCell::Node(head)
            &&& head.next() matches Some(second) ==> {
                &&& heap.holds(second)
                &&& heap.payload(second) matches ListCell::Node(next)
                &&& next.prev() == Some(first)
            }
        }
    }

    /// A list whose nodes form a chain is consistent.
    pub proof fn lemma_inv_consistent(heap: HeapView<ListCell<T>>, list: usize)
        requires
            Self::inv(heap, list),
        ensures
            Self::consistent(heap, list),
    {
        let nodes = Self::nodes(heap, list);
        if nodes.len() > 0 {
            assert(Node::<T>::linked(heap, nodes, 0));
            if nodes.len() > 1 {
                assert(Node::<T>::linked(heap, nodes, 1));
            }
        }
    }

    /// A list keeps its nodes and its values in any heap that holds the same
    /// cells at the list and at its nodes.
    pub proof fn lemma_inv_frame(
        before: HeapView<ListCell<T>>,
        after: HeapView<ListCell<T>>,
        list: usize,
    )
        requires
            Self::inv(before, list),
            after.contains(list) && after.cells[list] == before.cells[list],
            forall|i: int|
                0 <= i < Self::nodes(before, list).len() ==> after.contains(
                    #[trigger] Self::nodes(before, list)[i],
                ) && after.cells[Self::nodes(before, list)[i]] == before.cells[Self::nodes(
                    before,
                    list,
                )[i]],
        ensures
            Self::inv(after, list),
            Self::nodes(after, list) == Self::nodes(before, list),
            Self::elements(after, list) == Self::elements(before, list),
    {
        let nodes = Self::nodes(before, list);
        assert forall|i: int| 0 <= i < nodes.len() implies #[trigger] Node::<T>::linked(
            after,
            nodes,
            i,
        ) by {
            assert(Node::<T>::linked(before, nodes, i));
            assert(after.contains(nodes[i]));
        }
        assert(Self::elements(after, list) =~= Self::elements(before, list)) by {
            assert forall|i: int| 0 <= i < nodes.len() implies after.payload(nodes[i])
                == before.payload(nodes[i]) by {
                assert(after.contains(nodes[i]));
            }
        }
    }

    /// A collection that starts at the list keeps the list and every node.
    pub proof fn lemma_rooted_list_survives(
        heap: HeapView<ListCell<T>>,
        roots: Seq<usize>,
        list: usize,
    ) where T: GcTrace
        requires
            Self::inv(heap, list),
            roots.contains(list),
        ensures
            Self::inv(heap.collected(roots), list),
            Self::nodes(heap.collected(roots), list) == Self::nodes(heap, list),
            Self::elements(heap.collected(roots), list) == Self::elements(heap, list),
    {
        let nodes = Self::nodes(heap, list);
        let kept = heap.collected(roots);
        heap.lemma_root_reachable(roots, list);
        heap.lemma_collected_keeps(roots, list);
        assert forall|i: int| 0 <= i < nodes.len() implies kept.contains(#[trigger] nodes[i])
            && kept.cells[nodes[i]] == heap.cells[nodes[i]] by {
            Self::lemma_node_reachable(heap, roots, list, i);
            assert(Node::<T>::linked(heap, nodes, i));
            heap.lemma_collected_keeps(roots, nodes[i]);
        }
        Self::lemma_inv_frame(heap, kept, list);
    }

    /// The node at position `i` of a rooted list is reachable.
    proof fn lemma_node_reachable(
        heap: HeapView<ListCell<T>>,
        roots: Seq<usize>,
        list: usize,
        i: int,
    ) where T: GcTrace
        requires
            Self::inv(heap, list),
            heap.reachable(roots, list),
            0 <= i < Self::nodes(heap, list).len(),
        ensures
            heap.reachable(roots, Self::nodes(heap, list)[i]),
        decreases i,
    {
        let nodes = Self::nodes(heap, list);
        assert(Node::<T>::linked(heap, nodes, i));
        if i == 0 {
            let refs = heap.cells[list].refs();
            assert(refs[0] == nodes[0]);
            assert(heap.edge(list, nodes[0]));
            heap.lemma_edge_reachable(roots, list, nodes[0]);
        } else {
            Self::lemma_node_reachable(heap, roots, list, i - 1);
            assert(Node::<T>::linked(heap, nodes, i - 1));
            let refs = heap.cells[nodes[i - 1]].refs();
            let node = heap.payload(nodes[i - 1])->Node_0;
            assert(refs[node.value.refs().len() as int] == nodes[i]);
            assert(heap.edge(nodes[i - 1], nodes[i]));
            heap.lemma_edge_reachable(roots, nodes[i - 1], nodes[i]);
        }
    }

    /// Allocates a list without values.
    ///
    /// The allocation follows the rules of `Gc::new_nullable`.
    pub fn new(state: &mut GcState<ListCell<T>>, stack: &ShadowStack) -> (list: GcNullableRef<
        ListCell<T>,
    >) where T: GcTrace
        requires
            old(state).wf(),
            old(state)@.bytes_allocated + size_of::<GcBox<ListCell<T>>>() <= usize::MAX,
            old(state)@.collection_due() ==> roots_of_chain(stack.head) is Ok,
        ensures
            final(state).wf(),
            final(state)@ == allocation(
                old(state)@,
                roots_of_chain(stack.head),
                list@,
                CellView::fresh(true, Self::empty()),
            ),
            !allocation_base(old(state)@, roots_of_chain(stack.head)).contains(list@),
            Self::inv(final(state)@, list@),
            Self::elements(final(state)@, list@) == Seq::<T>::empty(),
    {
        let list = Gc::new_nullable(
            state,
            stack,
            ListCell::List(List { head: None, nodes: Ghost(Seq::empty()) }),
        );
        assert(Self::elements(state@, list@) == Seq::<T>::empty());
        list
    }

    /// Puts a value in front of the list.
    ///
    /// The new node is allocated under the rules of `Gc::new_nullable`. If
    /// that allocation starts with a collection, the chain has to be one
    /// that can be trusted, and the list has to be among the roots, or it
    /// would not outlive the collection.
    pub fn push(
        state: &mut GcState<ListCell<T>>,
        stack: &ShadowStack,
        self_ref: &mut GcNullableRef<ListCell<T>>,
        value: T,
    ) where T: GcTrace
        requires
            old(state).wf(),
            old(state)@.bytes_allocated + size_of::<GcBox<ListCell<T>>>() <= usize::MAX,
            Self::inv(old(state)@, old(self_ref)@),
            old(state)@.collection_due() ==> roots_of_chain(stack.head) is Ok && root_addrs(
                roots_of_chain(stack.head)->Ok_0,
            ).contains(old(self_ref)@),
        ensures
            final(self_ref)@ == old(self_ref)@,
            final(state).wf(),
            Self::inv(final(state)@, old(self_ref)@),
            Self::elements(final(state)@, old(self_ref)@) == seq![value] + Self::elements(
                old(state)@,
                old(self_ref)@,
            ),
            ({
                let allocated = allocation(
                    old(state)@,
                    roots_of_chain(stack.head),
                    Self::head(final(state)@, old(self_ref)@)->0,
                    CellView::fresh(true, Self::pushed(old(state)@, old(self_ref)@, value)),
                );
                &&& Self::head(final(state)@, old(self_ref)@) is Some
                &&& final(state)@.order == allocated.order
                &&& final(state)@.bytes_allocated == allocated.bytes_allocated
                &&& final(state)@.threshold == allocated.threshold
                &&& final(state)@.cells.dom() == allocated.cells.dom()
                &&& forall|addr: usize|
                    allocated.contains(addr) && addr != old(self_ref)@ && Self::head(
                        old(state)@,
                        old(self_ref)@,
                    ) != Some(addr) ==> final(state)@.cells[addr] == allocated.cells[addr]
            }),
    {
        let list_ref = *self_ref;
        let ghost list = list_ref@;
        let ghost nodes = Self::nodes(state@, list);
        let ghost values = Self::elements(state@, list);
        let head = match list_ref.as_ref(state) {
            ListCell::List(l) => l.head,
            ListCell::Node(_) => None,
        };
        let new_head = Node { value, prev: None, next: head, rest: Ghost(nodes) };
        let new_head_gc = Gc::new_nullable(state, stack, ListCell::Node(new_head));
        let ghost node = new_head_gc@;
        let ghost allocated = state@;
        proof {
            if old(state)@.collection_due() {
                let roots = root_addrs(roots_of_chain(stack.head)->Ok_0);
                Self::lemma_rooted_list_survives(old(state)@, roots, list);
                let kept = old(state)@.collected(roots);
                let prepared = old(state)@.prepared(roots);
                assert(prepared.cells == kept.cells);
                assert forall|i: int| 0 <= i < nodes.len() implies prepared.contains(
                    #[trigger] nodes[i],
                ) && prepared.cells[nodes[i]] == kept.cells[nodes[i]] by {
                    assert(Node::<T>::linked(kept, nodes, i));
                }
                Self::lemma_inv_frame(kept, prepared, list);
                assert(!prepared.contains(node));
                assert forall|i: int| 0 <= i < nodes.len() implies prepared.contains(
                    #[trigger] nodes[i],
                ) by {
                    assert(Node::<T>::linked(prepared, nodes, i));
                }
                Self::lemma_inv_frame(prepared, allocated, list);
            } else {
                assert forall|i: int| 0 <= i < nodes.len() implies old(state)@.contains(
                    #[trigger] nodes[i],
                ) by {
                    assert(Node::<T>::linked(old(state)@, nodes, i));
                }
                Self::lemma_inv_frame(old(state)@, allocated, list);
            }
            assert(node != list);
            assert forall|i: int| 0 <= i < nodes.len() implies nodes[i] != node by {
                assert(Node::<T>::linked(allocated, nodes, i));
            }
        }
        match head {
            Some(orig_head) => {
                let mut orig_head = orig_head;
                assert(Node::<T>::linked(allocated, nodes, 0));
                match orig_head.as_mut(state) {
                    ListCell::Node(first) => {
                        first.prev = Some(new_head_gc);
                    },
                    ListCell::List(_) => {},
                }
            },
            None => {},
        }
        let ghost relinked = state@;
        proof {
            assert forall|i: int| 0 <= i < nodes.len() implies #[trigger] Node::<T>::linked(
                relinked,
                nodes,
                i,
            ) && relinked.payload(nodes[i])->Node_0.value() == allocated.payload(
                nodes[i],
            )->Node_0.value() && (i == 0 ==> relinked.payload(nodes[i])->Node_0.prev() == Some(
                node,
            )) by {
                assert(Node::<T>::linked(allocated, nodes, i));
                assert(Node::<T>::linked(allocated, nodes, 0));
            }
            assert(relinked.cells[list] == allocated.cells[list]);
            assert(relinked.cells[node] == allocated.cells[node]);
        }
        let mut list_ref = list_ref;
        match list_ref.as_mut(state) {
            ListCell::List(l) => {
                l.head = Some(new_head_gc);
                l.nodes = Ghost(seq![node] + nodes);
            },
            ListCell::Node(_) => {},
        }
        proof {
            let longer = seq![node] + nodes;
            assert(Self::nodes(state@, list) == longer);
            assert forall|i: int| 0 <= i < longer.len() implies #[trigger] Node::<T>::linked(
                state@,
                longer,
                i,
            ) by {
                if i == 0 {
                    assert(longer.subrange(1, longer.len() as int) == nodes);
                    assert(state@.cells[node] == allocated.cells[node]);
                } else {
                    assert(Node::<T>::linked(relinked, nodes, i - 1));
                    assert(longer[i] == nodes[i - 1]);
                    assert(longer.subrange(i + 1, longer.len() as int) == nodes.subrange(
                        i,
                        nodes.len() as int,
                    ));
                    assert(state@.cells[nodes[i - 1]] == relinked.cells[nodes[i - 1]]);
                    if i + 1 < longer.len() {
                        assert(longer[i + 1] == nodes[i]);
                    }
                    if i > 1 {
                        assert(longer[i - 1] == nodes[i - 2]);
                    }
                }
            }
            assert(longer.no_duplicates());
            assert(!longer.contains(list));
            assert(Self::elements(state@, list) =~= seq![value] + values) by {
                assert forall|i: int| 0 <= i < longer.len() implies Self::elements(
                    state@,
                    list,
                )[i] == (seq![value] + values)[i] by {
                    if i > 0 {
                        assert(Node::<T>::linked(relinked, nodes, i - 1));
                        assert(state@.cells[nodes[i - 1]] == relinked.cells[nodes[i - 1]]);
                        assert(Self::elements(allocated, list)[i - 1] == allocated.payload(
                            nodes[i - 1],
                        )->Node_0.value());
                    } else {
                        assert(state@.cells[node] == allocated.cells[node]);
                    }
                }
            }
        }
    }

    /// Takes the first value off the list. An empty list yields nothing.
    ///
    /// The node that carried the value stays in the heap, emptied, until a
    /// collection reclaims it.
    pub fn pop(state: &mut GcState<ListCell<T>>, self_ref: &mut GcNullableRef<ListCell<T>>) -> (value:
        Option<T>)
        requires
            Self::inv(old(state)@, old(self_ref)@),
        ensures
            final(self_ref)@ == old(self_ref)@,
            old(state).wf() ==> final(state).wf(),
            Self::inv(final(state)@, old(self_ref)@),
            match value {
                Some(first) => {
                    &&& Self::elements(old(state)@, old(self_ref)@).len() > 0
                    &&& first == Self::elements(old(state)@, old(self_ref)@)[0]
                    &&& Self::elements(final(state)@, old(self_ref)@) == Self::elements(
                        old(state)@,
                        old(self_ref)@,
                    ).drop_first()
                    &&& Self::head(old(state)@, old(self_ref)@) matches Some(node)
                    &&& final(state)@.cells[node] == (CellView {
                        payload: None,
                        ..old(state)@.cells[node]
                    })
                    &&& final(state)@.order == old(state)@.order
                    &&& final(state)@.bytes_allocated == old(state)@.bytes_allocated
                    &&& final(state)@.threshold == old(state)@.threshold
                    &&& final(state)@.cells.dom() == old(state)@.cells.dom()
                    &&& forall|addr: usize|
                        old(state)@.contains(addr) && addr != old(self_ref)@ && addr != node
                            ==> final(state)@.cells[addr] == old(state)@.cells[addr]
                },
                None => {
                    &&& Self::elements(old(state)@, old(self_ref)@).len() == 0
                    &&& final(state)@ == old(state)@
                },
            },
    {
        let list_ref = *self_ref;
        let ghost list = list_ref@;
        let ghost nodes = Self::nodes(state@, list);
        let ghost values = Self::elements(state@, list);
        let head = match list_ref.as_ref(state) {
            ListCell::List(l) => l.head,
            ListCell::Node(_) => None,
        };
        match head {
            None => None,
            Some(h) => {
                let mut h = h;
                assert(Node::<T>::linked(state@, nodes, 0));
                let removed = h.remove(state);
                let ghost emptied = state@;
                match removed {
                    Some(ListCell::Node(first)) => {
                        let Node { value, prev: _, next, rest: _ } = first;
                        let mut list_ref = list_ref;
                        assert(emptied.cells[list] == old(state)@.cells[list]);
                        match list_ref.as_mut(state) {
                            ListCell::List(l) => {
                                l.head = next;
                                l.nodes = Ghost(nodes.drop_first());
                            },
                            ListCell::Node(_) => {},
                        }
                        proof {
                            let shorter = nodes.drop_first();
                            assert(Self::nodes(state@, list) == shorter);
                            assert forall|i: int|
                                0 <= i < shorter.len() implies #[trigger] Node::<T>::linked(
                                state@,
                                shorter,
                                i,
                            ) by {
                                assert(Node::<T>::linked(old(state)@, nodes, i + 1));
                                assert(shorter[i] == nodes[i + 1]);
                                assert(nodes[i + 1] != nodes[0]);
                                assert(state@.cells[nodes[i + 1]] == old(state)@.cells[nodes[i
                                    + 1]]);
                                assert(shorter.subrange(i + 1, shorter.len() as int)
                                    == nodes.subrange(i + 2, nodes.len() as int));
                                if i > 0 {
                                    assert(shorter[i - 1] == nodes[i]);
                                }
                                if i + 1 < shorter.len() {
                                    assert(shorter[i + 1] == nodes[i + 2]);
                                }
                            }
                            assert(shorter.no_duplicates());
                            assert(!shorter.contains(list)) by {
                                if shorter.contains(list) {
                                    let i = choose|i: int|
                                        0 <= i < shorter.len() && shorter[i] == list;
                                    assert(nodes[i + 1] == list);
                                }
                            }
                            assert(Self::elements(state@, list) =~= values.drop_first()) by {
                                assert forall|i: int| 0 <= i < shorter.len() implies Self::elements(
                                    state@,
                                    list,
                                )[i] == values.drop_first()[i] by {
                                    assert(nodes[i + 1] != nodes[0]);
                                    assert(state@.cells[nodes[i + 1]] == old(state)@.cells[nodes[i + 1]]);
                                    assert(values[i + 1] == old(state)@.payload(
                                        nodes[i + 1],
                                    )->Node_0.value());
                                }
                            }
                            assert(value == values[0]);
                        }
                        Some(value)
                    },
                    _ => unreached(),
                }
            },
        }
    }

    /// Looks the list at `self_ref` over, which has to be consistent: it has
    /// no second node, or its second node points back to its first. For a
    /// list of which that is not known, `is_consistent` is the test.
    pub fn assert_consistency(state: &GcState<ListCell<T>>, self_ref: GcNullableRef<ListCell<T>>)
        requires
            Self::consistent(state@, self_ref@),
    {
        if !Self::is_consistent(state, self_ref) {
            unreached()
        }
    }

    /// Whether the list at `self_ref` is consistent: it has no second node,
    /// or its second node points back to its first.
    pub fn is_consistent(state: &GcState<ListCell<T>>, self_ref: GcNullableRef<ListCell<T>>) -> (ok:
        bool)
        ensures
            ok == Self::consistent(state@, self_ref@),
    {
        if !state.contains(self_ref.as_ptr()) || self_ref.is_null(state) {
            return false;
        }
        let head = match self_ref.as_ref(state) {
            ListCell::List(list) => list.head,
            ListCell::Node(_) => {
                return false;
            },
        };
        match head {
            None => true,
            Some(h) => {
                if !state.contains(h.as_ptr()) || h.is_null(state) {
                    return false;
                }
                let next = match h.as_ref(state) {
                    ListCell::Node(node) => node.next,
                    ListCell::List(_) => {
                        return false;
                    },
                };
                match next {
                    None => true,
                    Some(next) => {
                        if !state.contains(next.as_ptr()) || next.is_null(state) {
                            return false;
                        }
                        match next.as_ref(state) {
                            ListCell::Node(node) => match node.prev {
                                None => false,
                                Some(p) => p == h,
                            },
                            ListCell::List(_) => false,
                        }
                    },
                }
            },
        }
    }

    /// The number of values in the list.
    pub fn len(state: &GcState<ListCell<T>>, self_ref: GcNullableRef<ListCell<T>>) -> (len: usize)
        requires
            state.wf(),
            Self::inv(state@, self_ref@),
        ensures
            len == Self::elements(state@, self_ref@).len(),
    {
        let ghost nodes = Self::nodes(state@, self_ref@);
        proof {
            // The list and its nodes are distinct cells of the heap.
            let cells = nodes.push(self_ref@);
            assert forall|i: int| 0 <= i < cells.len() implies state@.contains(
                #[trigger] cells[i],
            ) by {
                if i < nodes.len() {
                    assert(Node::<T>::linked(state@, nodes, i));
                }
            }
            assert(cells.no_duplicates());
            state.lemma_distinct_cells(cells);
            state.lemma_wf();
        }
        match self_ref.as_ref(state) {
            ListCell::List(list) => match &list.head {
                None => 0,
                Some(n) => {
                    assert(Node::<T>::linked(state@, nodes, 0));
                    match n.as_ref(state) {
                        ListCell::Node(node) => {
                            proof {
                                let rest = nodes.subrange(1, nodes.len() as int);
                                assert forall|i: int|
                                    0 <= i < rest.len() implies #[trigger] Node::<T>::linked(
                                    state@,
                                    rest,
                                    i,
                                ) by {
                                    assert(Node::<T>::linked(state@, nodes, i + 1));
                                    assert(rest.subrange(i + 1, rest.len() as int)
                                        == nodes.subrange(i + 2, nodes.len() as int));
                                    if i > 0 {
                                        assert(rest[i - 1] == nodes[i]);
                                    }
                                }
                            }
                            node.len(state)
                        },
                        ListCell::List(_) => 0,
                    }
                },
            },
            ListCell::Node(_) => 0,
        }
    }
}

} // verus!
