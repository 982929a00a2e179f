//! Host-side attachments: a collection that hands out a fresh handle for each loaded
//! attachment and finds it again by that handle, and the pixels of a host surface.
use vstd::prelude::*;
use std::collections::HashMap;

verus! {

broadcast use vstd::std_specs::hash::group_hash_axioms;

/// The handle of a loaded attachment.
#[derive(PartialEq, Eq, Structural, Hash, Copy, Clone, Debug)]
pub struct AttachmentHandle(usize);

impl AttachmentHandle {
    /// The number of the handle.
    pub closed spec fn id(&self) -> usize {
        self.0
    }

    fn first_handle() -> (h: AttachmentHandle)
        ensures
            h.id() == 0,
    {
        AttachmentHandle(0)
    }

    fn next_handle(&self) -> (h: AttachmentHandle)
        requires
            self.id() < usize::MAX,
        ensures
            h.id() == self.id() + 1,
    {
        AttachmentHandle(self.0 + 1)
    }
}

/// Attachments by handle; handles are handed out in order, from 0.
pub struct AttachmentCollection<G> {
    next_handle: AttachmentHandle,
    attachments: HashMap<usize, G>,
}

impl<G> AttachmentCollection<G> {
    /// The handle the next load will hand out.
    pub closed spec fn next_id(&self) -> usize {
        self.next_handle.0
    }

    /// The loaded attachments, by the number of their handle.
    pub closed spec fn contents(&self) -> Map<usize, G> {
        self.attachments@
    }

    /// Every loaded attachment has a handle below the next one.
    pub closed spec fn wf(&self) -> bool {
        forall|k: usize| #[trigger] self.attachments@.contains_key(k) ==> k < self.next_handle.0
    }

    /// An empty collection whose first handle is 0.
    pub fn new() -> (c: AttachmentCollection<G>)
        ensures
            c.wf(),
            c.next_id() == 0,
            c.contents() == Map::<usize, G>::empty(),
    {
        AttachmentCollection { next_handle: AttachmentHandle::first_handle(), attachments: HashMap::new() }
    }

    /// Stores `gpu_attachment` under a fresh handle and returns the handle.
    pub fn load(&mut self, gpu_attachment: G) -> (h: AttachmentHandle)
        requires
            old(self).wf(),
            old(self).next_id() < usize::MAX,
        ensures
            final(self).wf(),
            h.id() == old(self).next_id(),
            !old(self).contents().contains_key(h.id()),
            final(self).next_id() == old(self).next_id() + 1,
            final(self).contents() == old(self).contents().insert(h.id(), gpu_attachment),
    {
        let attachment_handle = self.next_handle;
        self.next_handle = self.next_handle.next_handle();
        self.attachments.insert(attachment_handle.0, gpu_attachment);
        attachment_handle
    }

    /// The attachment stored under `handle`, if any.
    pub fn retrieve(&self, handle: AttachmentHandle) -> (r: Option<&G>)
        ensures
            match r {
                Some(g) => self.contents().contains_key(handle.id()) && *g == self.contents()[handle.id()],
                None => !self.contents().contains_key(handle.id()),
            },
    {
        self.attachments.get(&handle.0)
    }
}

/// Loading stores under a handle no earlier load handed out, and retrieving that
/// handle then gives back what was loaded while leaving every other handle as it was.
pub proof fn law_load_then_retrieve<G>(contents: Map<usize, G>, next: usize, loaded: G, other: usize)
    requires
        forall|k: usize| #[trigger] contents.contains_key(k) ==> k < next,
    ensures
        !contents.contains_key(next),
        contents.insert(next, loaded).contains_key(next),
        contents.insert(next, loaded)[next] == loaded,
        other != next ==> contents.insert(next, loaded).contains_key(other) == contents.contains_key(other),
        other != next && contents.contains_key(other) ==> contents.insert(next, loaded)[other] == contents[other],
{
}

/// The pixels of a surface held on the host: its bytes and its size.
pub struct HostSurface {
    bytes: Vec<u8>,
    width: u32,
    height: u32,
}

impl HostSurface {
    /// The surface's bytes.
    pub closed spec fn spec_bytes(&self) -> Seq<u8> {
        self.bytes@
    }

    /// The surface's width and height.
    pub closed spec fn size(&self) -> (u32, u32) {
        (self.width, self.height)
    }

    /// A surface holding a copy of `bytes`, `width` by `height` pixels.
    pub fn new(bytes: &Vec<u8>, width: u32, height: u32) -> (s: HostSurface)
        ensures
            s.spec_bytes() == bytes@,
            s.size() == (width, height),
    {
        let mut copy: Vec<u8> = Vec::new();
        let mut i: usize = 0;
        while i < bytes.len()
            invariant
                i <= bytes@.len(),
                copy@ == bytes@.take(i as int),
            decreases bytes@.len() - i,
        {
            copy.push(bytes[i]);
            i = i + 1;
            assert(copy@ =~= bytes@.take(i as int));
        }
        assert(bytes@.take(i as int) =~= bytes@);
        HostSurface { bytes: copy, width, height }
    }

    /// The surface's bytes.
    pub fn bytes(&self) -> (b: &Vec<u8>)
        ensures
            b@ == self.spec_bytes(),
    {
        &self.bytes
    }

    /// The surface's width.
    pub fn width(&self) -> (w: u32)
        ensures
            w == self.size().0,
    {
        self.width
    }

    /// The surface's height.
    pub fn height(&self) -> (h: u32)
        ensures
            h == self.size().1,
    {
        self.height
    }
}

} // verus!
