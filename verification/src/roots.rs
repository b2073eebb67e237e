//! Root discovery: reading the chain of frame descriptors that the compiler
//! emits for the live call frames, and resolving each root slot to the
//! address of a cell.
//!
//! Every live frame contributes one stack entry. Its frame map declares how
//! many root slots the frame has and carries one metadata byte per slot, which
//! says how the slot is to be read. The entries form a singly linked chain,
//! innermost frame first.

use vstd::prelude::*;

verus! {

/// Metadata byte of a slot that holds the address of a cell.
pub const META_DIRECT: u8 = 1;

/// Metadata byte of a slot that holds the address of a place which in turn
/// holds the address of a cell.
pub const META_INDIRECT: u8 = 2;

/// The descriptor of one call frame.
#[derive(Debug)]
pub struct FrameMap {
    /// The number of root slots that the frame declares.
    pub num_roots: u32,
    /// The number of metadata bytes that the frame declares.
    pub num_meta: u32,
    /// One byte per root slot.
    pub meta: Vec<u8>,
}

/// One root slot of a frame.
#[derive(Debug, Clone, Copy, PartialEq, Eq)]
pub struct RootSlot {
    /// The pointer stored in the slot; `None` is the null pointer.
    pub pointer: Option<usize>,
    /// What one more dereference of `pointer` yields. Only an indirect slot
    /// is read this way.
    pub target: Option<usize>,
}

/// The record of one live call frame.
#[derive(Debug)]
pub struct StackEntry {
    /// The entry of the calling frame.
    pub next: Option<Box<StackEntry>>,
    /// The frame's descriptor; a frame without one has no roots.
    pub frame_map: Option<FrameMap>,
    pub roots: Vec<RootSlot>,
}

/// The chain of stack entries of one execution context, named by its head.
#[derive(Debug)]
pub struct ShadowStack {
    pub head: Option<Box<StackEntry>>,
}

/// A root that was found: the address of a cell, and the metadata byte of the
/// slot that led to it.
#[derive(Debug, Clone, Copy, PartialEq, Eq)]
pub struct Root {
    pub addr: usize,
    pub meta: u8,
}

/// Why a chain of frame descriptors cannot be trusted.
#[derive(Debug, Clone, Copy, PartialEq, Eq)]
pub enum RootError {
    /// A frame declares a number of metadata bytes that differs from its
    /// number of roots, so some root could not be interpreted.
    MissingMetadata { num_roots: u32, num_meta: u32 },
    /// A frame holds fewer slots or metadata bytes than it declares.
    TruncatedFrame,
    /// The metadata byte of a slot that is not null names no known way to
    /// read it.
    InvalidMetadata { meta: u8 },
}

/// The cell address that a slot stands for under its metadata byte. A null
/// slot stands for none, whatever its metadata.
pub open spec fn resolve_slot(slot: RootSlot, meta: u8) -> Result<Option<usize>, RootError> {
    if slot.pointer is None {
        Ok(None)
    } else if meta == META_DIRECT {
        Ok(slot.pointer)
    } else if meta == META_INDIRECT {
        Ok(slot.target)
    } else {
        Err(RootError::InvalidMetadata { meta })
    }
}

/// The roots among the first `n` slots, in slot order, or the first error
/// met on the way.
pub open spec fn roots_of_slots(slots: Seq<RootSlot>, meta: Seq<u8>, n: int) -> Result<
    Seq<Root>,
    RootError,
>
    decreases n,
{
    if n <= 0 {
        Ok(Seq::empty())
    } else {
        match roots_of_slots(slots, meta, n - 1) {
            Err(e) => Err(e),
            Ok(found) => match resolve_slot(slots[n - 1], meta[n - 1]) {
                Err(e) => Err(e),
                Ok(None) => Ok(found),
                Ok(Some(addr)) => Ok(found.push(Root { addr, meta: meta[n - 1] })),
            },
        }
    }
}

/// The roots of one frame.
pub open spec fn roots_of_frame(entry: StackEntry) -> Result<Seq<Root>, RootError> {
    match entry.frame_map {
        None => Ok(Seq::empty()),
        Some(map) => if map.num_roots != map.num_meta {
            Err(RootError::MissingMetadata { num_roots: map.num_roots, num_meta: map.num_meta })
        } else if entry.roots@.len() < map.num_roots || map.meta@.len() < map.num_meta {
            Err(RootError::TruncatedFrame)
        } else {
            roots_of_slots(entry.roots@, map.meta@, map.num_roots as int)
        },
    }
}

/// The roots of a whole chain, frame after frame from the head, or the first
/// error met on the way.
pub open spec fn roots_of_chain(head: Option<Box<StackEntry>>) -> Result<Seq<Root>, RootError>
    decreases head,
{
    match head {
        None => Ok(Seq::empty()),
        Some(entry) => match roots_of_frame(*entry) {
            Err(e) => Err(e),
            Ok(found) => match roots_of_chain(entry.next) {
                Err(e) => Err(e),
                Ok(rest) => Ok(found + rest),
            },
        },
    }
}

/// The addresses of a sequence of roots.
pub open spec fn root_addrs(roots: Seq<Root>) -> Seq<usize> {
    roots.map_values(|r: Root| r.addr)
}

impl RootSlot {
    /// The null slot.
    pub fn null() -> (slot: RootSlot)
        ensures
            slot == (RootSlot { pointer: None, target: None }),
    {
        RootSlot { pointer: None, target: None }
    }

    /// A slot that holds the address of a cell.
    pub fn direct(addr: usize) -> (slot: RootSlot)
        ensures
            slot == (RootSlot { pointer: Some(addr), target: None }),
    {
        RootSlot { pointer: Some(addr), target: None }
    }

    /// A slot that holds the address `holder` of a place which holds
    /// `target`.
    pub fn indirect(holder: usize, target: Option<usize>) -> (slot: RootSlot)
        ensures
            slot == (RootSlot { pointer: Some(holder), target }),
    {
        RootSlot { pointer: Some(holder), target }
    }
}

/// The roots that name the given cells directly.
pub open spec fn direct_roots(addrs: Seq<usize>) -> Seq<Root> {
    addrs.map_values(|addr: usize| Root { addr, meta: META_DIRECT })
}

/// The roots of a chain that has a frame on top whose slots name `addrs`
/// directly, where `head` is the chain below that frame.
pub open spec fn rooted_on_top(addrs: Seq<usize>, head: Option<Box<StackEntry>>) -> Result<
    Seq<Root>,
    RootError,
> {
    match roots_of_chain(head) {
        Ok(rest) => Ok(direct_roots(addrs) + rest),
        Err(e) => Err(e),
    }
}

/// Every address that the frame on top names is among the roots.
pub proof fn lemma_rooted_on_top(addrs: Seq<usize>, head: Option<Box<StackEntry>>, k: int)
    requires
        0 <= k < addrs.len(),
        rooted_on_top(addrs, head) is Ok,
    ensures
        root_addrs(rooted_on_top(addrs, head)->Ok_0).contains(addrs[k]),
{
    assert(root_addrs(rooted_on_top(addrs, head)->Ok_0)[k] == addrs[k]);
}

/// The most slots that one frame can declare.
pub const FRAME_LIMIT: usize = 4294967295;

/// The chain that is left of the chain at `head` once its innermost `frames`
/// frames have been left.
pub open spec fn below(head: Option<Box<StackEntry>>, frames: nat) -> Option<Box<StackEntry>>
    decreases frames,
{
    if frames == 0 {
        head
    } else {
        match head {
            Some(entry) => below(entry.next, (frames - 1) as nat),
            None => None,
        }
    }
}

/// A frame of direct slots yields one root per slot.
pub proof fn lemma_direct_slots(slots: Seq<RootSlot>, meta: Seq<u8>, addrs: Seq<usize>, n: int)
    requires
        0 <= n <= addrs.len(),
        slots.len() == addrs.len(),
        meta.len() == addrs.len(),
        forall|i: int| 0 <= i < addrs.len() ==> #[trigger] slots[i] == (RootSlot {
            pointer: Some(addrs[i]),
            target: None,
        }),
        forall|i: int| 0 <= i < addrs.len() ==> #[trigger] meta[i] == META_DIRECT,
    ensures
        roots_of_slots(slots, meta, n) == Ok::<Seq<Root>, RootError>(
            direct_roots(addrs.subrange(0, n)),
        ),
    decreases n,
{
    if n > 0 {
        lemma_direct_slots(slots, meta, addrs, n - 1);
        assert(direct_roots(addrs.subrange(0, n)) == direct_roots(addrs.subrange(0, n - 1)).push(
            Root { addr: addrs[n - 1], meta: META_DIRECT },
        ));
    } else {
        assert(direct_roots(addrs.subrange(0, 0)) == Seq::<Root>::empty());
    }
}

impl ShadowStack {
    /// The chain of a context that has no live frame.
    pub fn new() -> (stack: ShadowStack)
        ensures
            stack.head is None,
    {
        ShadowStack { head: None }
    }

    /// Enters a frame: its entry becomes the head of the chain.
    pub fn push_frame(&mut self, frame_map: Option<FrameMap>, roots: Vec<RootSlot>)
        ensures
            final(self).head == Some(
                Box::new(StackEntry { next: old(self).head, frame_map, roots }),
            ),
    {
        let next = self.head.take();
        self.head = Some(Box::new(StackEntry { next, frame_map, roots }));
    }

    /// Leaves the innermost frame and returns its descriptor and slots. On a
    /// chain without a frame nothing happens.
    pub fn pop_frame(&mut self) -> (frame: Option<(Option<FrameMap>, Vec<RootSlot>)>)
        ensures
            match old(self).head {
                Some(entry) => final(self).head == entry.next && frame == Some(
                    (entry.frame_map, entry.roots),
                ),
                None => final(self).head is None && frame is None,
            },
    {
        match self.head.take() {
            Some(entry) => {
                let entry = *entry;
                self.head = entry.next;
                Some((entry.frame_map, entry.roots))
            },
            None => None,
        }
    }

    /// Enters a frame whose slots name the cells of `addrs` from `start` up
    /// to, and without, `end` directly.
    fn push_chunk(&mut self, addrs: &Vec<usize>, start: usize, end: usize)
        requires
            start <= end <= addrs@.len(),
            end - start <= u32::MAX,
        ensures
            final(self).head matches Some(entry) && entry.next == old(self).head,
            roots_of_chain(final(self).head) == rooted_on_top(
                addrs@.subrange(start as int, end as int),
                old(self).head,
            ),
    {
        let ghost chunk = addrs@.subrange(start as int, end as int);
        let mut roots: Vec<RootSlot> = Vec::new();
        let mut meta: Vec<u8> = Vec::new();
        let mut i: usize = start;
        while i < end
            invariant
                start <= i <= end <= addrs@.len(),
                chunk == addrs@.subrange(start as int, end as int),
                roots@.len() == i - start,
                meta@.len() == i - start,
                forall|k: int| 0 <= k < i - start ==> #[trigger] roots@[k] == (RootSlot {
                    pointer: Some(chunk[k]),
                    target: None,
                }),
                forall|k: int| 0 <= k < i - start ==> #[trigger] meta@[k] == META_DIRECT,
            decreases end - i,
        {
            roots.push(RootSlot::direct(addrs[i]));
            meta.push(META_DIRECT);
            i = i + 1;
        }
        let count = (end - start) as u32;
        proof {
            lemma_direct_slots(roots@, meta@, chunk, chunk.len() as int);
            assert(chunk.subrange(0, chunk.len() as int) == chunk);
        }
        self.push_frame(Some(FrameMap { num_roots: count, num_meta: count, meta }), roots);
    }

    /// Enters frames whose slots name the given cells directly, and returns
    /// the number of frames entered. One frame holds them all, unless there
    /// are more cells than a frame can declare; the cells are then spread
    /// over as many frames as it takes, in their order.
    pub fn push_roots(&mut self, addrs: &Vec<usize>) -> (frames: usize)
        ensures
            frames >= 1,
            addrs@.len() <= FRAME_LIMIT ==> frames == 1,
            below(final(self).head, frames as nat) == old(self).head,
            roots_of_chain(final(self).head) == rooted_on_top(addrs@, old(self).head),
    {
        let len = addrs.len();
        let first = if len > FRAME_LIMIT {
            len - FRAME_LIMIT
        } else {
            0
        };
        self.push_chunk(addrs, first, len);
        let mut end = first;
        let mut frames: usize = 1;
        proof {
            reveal_with_fuel(below, 2);
        }
        while end > 0
            invariant
                end <= len,
                len == addrs@.len(),
                frames >= 1,
                end > 0 ==> frames + end <= len,
                len <= FRAME_LIMIT ==> end == 0 && frames == 1,
                below(self.head, frames as nat) == old(self).head,
                roots_of_chain(self.head) == rooted_on_top(
                    addrs@.subrange(end as int, len as int),
                    old(self).head,
                ),
            decreases end,
        {
            let start = if end > FRAME_LIMIT {
                end - FRAME_LIMIT
            } else {
                0
            };
            let ghost head = self.head;
            self.push_chunk(addrs, start, end);
            proof {
                assert(direct_roots(addrs@.subrange(start as int, end as int)) + direct_roots(
                    addrs@.subrange(end as int, len as int),
                ) == direct_roots(addrs@.subrange(start as int, len as int)));
                if roots_of_chain(old(self).head) is Ok {
                    let base = roots_of_chain(old(self).head)->Ok_0;
                    assert(direct_roots(addrs@.subrange(start as int, end as int)) + (direct_roots(
                        addrs@.subrange(end as int, len as int),
                    ) + base) == direct_roots(addrs@.subrange(start as int, len as int)) + base);
                }
                assert(below(self.head, (frames + 1) as nat) == below(head, frames as nat));
            }
            frames = frames + 1;
            end = start;
        }
        assert(addrs@.subrange(0, len as int) == addrs@);
        frames
    }

    /// Leaves the innermost `frames` frames, or as many as there are.
    pub fn pop_frames(&mut self, frames: usize)
        ensures
            final(self).head == below(old(self).head, frames as nat),
    {
        let mut left = frames;
        while left > 0
            invariant
                below(self.head, left as nat) == below(old(self).head, frames as nat),
            decreases left,
        {
            let ghost head = self.head;
            let _frame = self.pop_frame();
            proof {
                reveal_with_fuel(below, 2);
                assert(below(head, left as nat) == below(self.head, (left - 1) as nat));
            }
            left = left - 1;
        }
    }
}

/// Reads one slot under its metadata byte.
pub fn resolve(slot: &RootSlot, meta: u8) -> (r: Result<Option<usize>, RootError>)
    ensures
        r == resolve_slot(*slot, meta),
{
    if slot.pointer.is_none() {
        Ok(None)
    } else if meta == META_DIRECT {
        Ok(slot.pointer)
    } else if meta == META_INDIRECT {
        Ok(slot.target)
    } else {
        Err(RootError::InvalidMetadata { meta })
    }
}

/// Appends the roots of one frame to `found`. After an error `found` is of
/// no further use.
pub(crate) fn frame_roots(entry: &StackEntry, found: &mut Vec<Root>) -> (r: Result<(), RootError>)
    ensures
        match roots_of_frame(*entry) {
            Ok(roots) => r is Ok && final(found)@ == old(found)@ + roots,
            Err(e) => r == Err::<(), RootError>(e),
        },
{
    match &entry.frame_map {
        None => {
            assert(found@ == old(found)@ + Seq::<Root>::empty());
            Ok(())
        },
        Some(map) => {
            if map.num_roots != map.num_meta {
                return Err(
                    RootError::MissingMetadata { num_roots: map.num_roots, num_meta: map.num_meta },
                );
            }
            let n = map.num_roots as usize;
            if entry.roots.len() < n || map.meta.len() < n {
                return Err(RootError::TruncatedFrame);
            }
            let mut i: usize = 0;
            assert(found@ == old(found)@ + Seq::<Root>::empty());
            while i < n
                invariant
                    i <= n,
                    entry.frame_map == Some(*map),
                    n == map.num_roots,
                    n == map.num_meta,
                    n <= entry.roots@.len(),
                    n <= map.meta@.len(),
                    roots_of_slots(entry.roots@, map.meta@, i as int) matches Ok(roots)
                        && found@ == old(found)@ + roots,
                decreases n - i,
            {
                let meta = map.meta[i];
                match resolve(&entry.roots[i], meta) {
                    Err(e) => {
                        proof {
                            assert(roots_of_slots(entry.roots@, map.meta@, i as int + 1) is Err);
                            lemma_slot_error_stays(entry.roots@, map.meta@, i as int + 1, n as int);
                        }
                        return Err(e);
                    },
                    Ok(None) => {},
                    Ok(Some(addr)) => {
                        let ghost before = roots_of_slots(entry.roots@, map.meta@, i as int)->Ok_0;
                        found.push(Root { addr, meta });
                        assert(found@ == old(found)@ + before.push(Root { addr, meta }));
                    },
                }
                i = i + 1;
            }
            Ok(())
        },
    }
}

/// An error among the first `i` slots is the error of any longer prefix.
pub proof fn lemma_slot_error_stays(slots: Seq<RootSlot>, meta: Seq<u8>, i: int, n: int)
    requires
        i <= n,
        roots_of_slots(slots, meta, i) is Err,
    ensures
        roots_of_slots(slots, meta, n) == roots_of_slots(slots, meta, i),
    decreases n - i,
{
    if i < n {
        lemma_slot_error_stays(slots, meta, i, n - 1);
    }
}

/// Tests whether a chain can be trusted: whether every frame of it declares
/// as many metadata bytes as roots and holds what it declares, and every
/// slot that is not null carries a known metadata byte.
///
/// A chain that fails the test must not be handed to the collector. The
/// error is that of the first frame, and in it of the first slot, at which
/// a walk from the head would have to stop.
pub fn check_chain(stack: &ShadowStack) -> (r: Result<(), RootError>)
    ensures
        match roots_of_chain(stack.head) {
            Ok(_) => r is Ok,
            Err(e) => r == Err::<(), RootError>(e),
        },
{
    match walk(stack) {
        Ok(_) => Ok(()),
        Err(e) => Err(e),
    }
}

/// Walks a chain that can be trusted from its head and resolves every slot
/// that is not null to the address of a cell. Returns the roots in the
/// order of the walk.
///
/// A chain with a frame whose counts disagree, or with a slot of unknown
/// metadata, is fatal to a collection: no such chain may be walked.
pub fn iterate_roots(stack: &ShadowStack) -> (found: Vec<Root>)
    requires
        roots_of_chain(stack.head) is Ok,
    ensures
        found@ == roots_of_chain(stack.head)->Ok_0,
{
    match walk(stack) {
        Ok(found) => found,
        Err(_) => unreached(),
    }
}

/// Walks the chain from its head, up to the first frame whose counts
/// disagree or the first slot whose metadata byte is unknown.
fn walk(stack: &ShadowStack) -> (r: Result<Vec<Root>, RootError>)
    ensures
        match roots_of_chain(stack.head) {
            Ok(roots) => r matches Ok(found) && found@ == roots,
            Err(e) => r == Err::<Vec<Root>, RootError>(e),
        },
{
    let mut found: Vec<Root> = Vec::new();
    let mut cur = &stack.head;
    assert(Seq::<Root>::empty() + roots_of_chain(*cur)->Ok_0 == roots_of_chain(*cur)->Ok_0);
    while cur.is_some()
        invariant
            match roots_of_chain(*cur) {
                Ok(rest) => roots_of_chain(stack.head) == Ok::<Seq<Root>, RootError>(
                    found@ + rest,
                ),
                Err(e) => roots_of_chain(stack.head) == Err::<Seq<Root>, RootError>(e),
            },
        decreases *cur,
    {
        let entry = cur.as_ref().unwrap();
        let ghost before = found@;
        match frame_roots(entry, &mut found) {
            Err(e) => {
                return Err(e);
            },
            Ok(()) => {},
        }
        proof {
            let here = roots_of_frame(**entry)->Ok_0;
            if roots_of_chain(entry.next) is Ok {
                let rest = roots_of_chain(entry.next)->Ok_0;
                assert(before + (here + rest) == (before + here) + rest);
            }
        }
        cur = &entry.next;
    }
    assert(found@ + Seq::<Root>::empty() == found@);
    Ok(found)
}

/// The addresses of the roots that were found, in order.
pub fn root_addresses(roots: &Vec<Root>) -> (addrs: Vec<usize>)
    ensures
        addrs@ == root_addrs(roots@),
{
    let mut addrs: Vec<usize> = Vec::new();
    let mut i: usize = 0;
    while i < roots.len()
        invariant
            i <= roots@.len(),
            addrs@ == root_addrs(roots@.subrange(0, i as int)),
        decreases roots@.len() - i,
    {
        addrs.push(roots[i].addr);
        assert(roots@.subrange(0, i as int + 1) == roots@.subrange(0, i as int).push(roots@[i as int]));
        i = i + 1;
    }
    assert(roots@.subrange(0, roots@.len() as int) == roots@);
    addrs
}

} // verus!
