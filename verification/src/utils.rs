use vstd::prelude::*;

verus! {

/// A vector of at most four items that lives on the stack: `len` counts the
/// slots in use, `data` holds them.
#[derive(Debug, Clone, Copy, PartialEq)]
pub struct StackVec4<A> {
    pub len: usize,
    pub data: [Option<A>; 4],
}

impl<A> Default for StackVec4<A> {
    fn default() -> (v: Self)
        ensures
            v.len == 0,
            forall|i: int| 0 <= i < 4 ==> v.data[i].is_none(),
    {
        StackVec4 { len: 0, data: [None, None, None, None] }
    }
}

/// The slots after the item at `index` has left a vector of `len` items: what
/// followed it has moved down by one and the last slot in use is empty. An
/// `index` that is not in use leaves the slots as they are.
pub open spec fn spec_removed<A>(data: Seq<Option<A>>, len: int, index: int) -> Seq<Option<A>> {
    Seq::new(
        data.len(),
        |i: int|
            if index >= len || i < index || i >= len {
                data[i]
            } else if i == len - 1 {
                None
            } else {
                data[i + 1]
            },
    )
}

/// The filled slots among the first `n`, in their order.
pub open spec fn spec_filled<A>(data: Seq<Option<A>>, n: int) -> Seq<Option<A>>
    decreases n,
{
    if n <= 0 {
        Seq::empty()
    } else if data[n - 1].is_some() {
        spec_filled(data, n - 1).push(data[n - 1])
    } else {
        spec_filled(data, n - 1)
    }
}

impl<A> StackVec4<A> {
    /// The length is within the capacity, the slots in use are filled and the
    /// others are empty.
    pub open spec fn wf(self) -> bool {
        &&& self.len <= 4
        &&& forall|i: int| 0 <= i < 4 ==> (#[trigger] self.data[i]).is_some() == (i < self.len)
    }

    /// The items in use, in order.
    pub open spec fn items(self) -> Seq<A> {
        Seq::new(self.len as nat, |i: int| self.data[i].unwrap())
    }

    /// Puts `val` into the next free slot.
    pub fn push(&mut self, val: A)
        requires
            old(self).len < 4,
        ensures
            final(self).len == old(self).len + 1,
            final(self).data@ == old(self).data@.update(old(self).len as int, Some(val)),
            old(self).wf() ==> final(self).wf() && final(self).items() == old(self).items().push(val),
    {
        self.data[self.len] = Some(val);
        self.len += 1;
        proof {
            if old(self).wf() {
                assert(self.items() =~= old(self).items().push(val));
            }
        }
    }

    /// Puts `val` into slot `len mod 4`, over whatever is there, and counts
    /// it.
    pub fn push_1_safe(&mut self, val: A)
        requires
            old(self).len < usize::MAX,
        ensures
            final(self).len == old(self).len + 1,
            final(self).data@ == old(self).data@.update(old(self).len as int % 4, Some(val)),
    {
        let len: usize = self.len;
        let slot: usize = len & 3;
        assert(slot == len % 4) by (bit_vector)
            requires
                slot == len & 3,
        ;
        self.data[slot] = Some(val);
        self.len += 1;
    }

    /// Takes the item at `index` out: the items after it move down by one.
    /// With an `index` that is not in use only the length goes down.
    pub fn remove(&mut self, index: usize)
        requires
            0 < old(self).len <= 4,
        ensures
            final(self).len == old(self).len - 1,
            final(self).data@ == spec_removed(old(self).data@, old(self).len as int, index as int),
            old(self).wf() && index < old(self).len ==> final(self).wf() && final(self).items()
                == old(self).items().remove(index as int),
    {
        self.len -= 1;
        if index == self.len {
            self.data[index] = None;
        } else {
            let mut i: usize = index;
            while i < self.len
                invariant
                    self.len == old(self).len - 1,
                    self.len < 4,
                    i == index || index < i <= self.len,
                    forall|j: int|
                        0 <= j < 4 ==> (#[trigger] self.data[j]) == (if index <= j < i {
                            old(self).data[j + 1]
                        } else if j == i && index < i {
                            None
                        } else {
                            old(self).data[j]
                        }),
                decreases self.len - i,
            {
                let right = self.data[i + 1].take();
                self.data[i] = right;
                i += 1;
            }
        }
        proof {
            assert(self.data@ =~= spec_removed(old(self).data@, old(self).len as int, index as int));
            if old(self).wf() && index < old(self).len {
                assert(self.items() =~= old(self).items().remove(index as int));
            }
        }
    }

    /// Moves the filled slots among those in use to the front, in their
    /// order, and counts them.
    pub fn compact(&mut self)
        requires
            old(self).len <= 4,
        ensures
            final(self).wf(),
            final(self).len == spec_filled(old(self).data@, old(self).len as int).len(),
            forall|i: int|
                0 <= i < final(self).len ==> final(self).data[i] == spec_filled(
                    old(self).data@,
                    old(self).len as int,
                )[i],
    {
        let mut new_data: [Option<A>; 4] = [None, None, None, None];
        let mut new_len: usize = 0;
        let mut i: usize = 0;
        while i < self.len
            invariant
                self.len == old(self).len,
                self.len <= 4,
                i <= self.len,
                new_len <= i,
                new_len == spec_filled(old(self).data@, i as int).len(),
                forall|j: int|
                    0 <= j < new_len ==> new_data[j] == spec_filled(old(self).data@, i as int)[j],
                forall|j: int| 0 <= j < new_len ==> (#[trigger] new_data[j]).is_some(),
                forall|j: int| new_len <= j < 4 ==> (#[trigger] new_data[j]).is_none(),
                forall|j: int| i <= j < 4 ==> self.data[j] == old(self).data[j],
            decreases self.len - i,
        {
            let item = self.data[i].take();
            if item.is_some() {
                new_data[new_len] = item;
                new_len += 1;
            }
            i += 1;
        }
        self.data = new_data;
        self.len = new_len;
    }
}

} // verus!
