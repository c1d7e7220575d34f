use vstd::prelude::*;

verus! {

/// Hands out samples one at a time from a buffer that a render function
/// fills in blocks, rendering again whenever the buffer has been used up.
pub struct OnDemand<S> {
    buffer: Vec<S>,
    index: usize,
}

impl<S: Copy> OnDemand<S> {
    /// The samples of the current block.
    pub closed spec fn block(&self) -> Seq<S> {
        self.buffer@
    }

    /// How many samples of the current block have been handed out.
    pub closed spec fn handed_out(&self) -> nat {
        self.index as nat
    }

    /// An empty buffer: the first `process` renders.
    pub fn new() -> (r: Self)
        ensures
            r.block() == Seq::<S>::empty(),
            r.handed_out() == 0,
    {
        OnDemand { buffer: Vec::new(), index: 0 }
    }

    /// Returns the next sample of the block. Where the block is used up, the
    /// buffer is emptied and handed to `render`, which must put at least one
    /// sample in it, and the block starts again from its first sample.
    pub fn process<R: FnMut(&mut Vec<S>)>(&mut self, mut render: R) -> (r: S)
        requires
            old(self).handed_out() >= old(self).block().len() ==> {
                &&& forall|b: &mut Vec<S>| b@.len() == 0 ==> #[trigger] render.requires((b,))
                &&& forall|b: &mut Vec<S>, u: ()| b@.len() == 0 && #[trigger] render.ensures((b,), u) ==> final(b)@.len() > 0
            },
        ensures
            old(self).handed_out() < old(self).block().len() ==> {
                &&& r == old(self).block()[old(self).handed_out() as int]
                &&& final(self).block() == old(self).block()
                &&& final(self).handed_out() == old(self).handed_out() + 1
            },
            old(self).handed_out() >= old(self).block().len() ==> {
                &&& exists|b: &mut Vec<S>| b@.len() == 0 && #[trigger] render.ensures((b,), ()) && final(b)@ == final(self).block()
                &&& final(self).block().len() > 0
                &&& r == final(self).block()[0]
                &&& final(self).handed_out() == 1
            },
    {
        if self.index >= self.buffer.len() {
            self.buffer.clear();
            render(&mut self.buffer);
            self.index = 0;
        }
        let x = self.buffer[self.index];
        self.index += 1;
        x
    }
}

} // verus!
