use vstd::prelude::*;

verus! {

/// Read access to a packed table of integers.
pub trait Packed {
    spec fn values(&self) -> Seq<u64>;

    fn index(&self, index: usize) -> (r: u64)
        requires
            index < self.values().len(),
        ensures
            r == self.values()[index as int],
    ;

    fn size_in_bytes(&self) -> (r: usize);
}

/// A packed table that can be built from a list of values.
pub trait MutPacked: Packed + Sized {
    /// Whether the table can hold the values.
    spec fn holds(vals: Seq<u64>) -> bool;

    fn try_new(vals: Vec<u64>) -> (r: Option<Self>)
        ensures
            r is Some <==> Self::holds(vals@),
            r matches Some(t) ==> t.values() == vals@,
    ;
}

impl Packed for Vec<u32> {
    open spec fn values(&self) -> Seq<u64> {
        self@.map_values(|x: u32| x as u64)
    }

    fn index(&self, index: usize) -> (r: u64) {
        self[index] as u64
    }

    fn size_in_bytes(&self) -> (r: usize) {
        if self.len() <= usize::MAX / 4 {
            self.len() * 4
        } else {
            usize::MAX
        }
    }
}

impl MutPacked for Vec<u32> {
    open spec fn holds(vals: Seq<u64>) -> bool {
        forall|i: int| 0 <= i < vals.len() ==> #[trigger] vals[i] <= u32::MAX
    }

    fn try_new(vals: Vec<u64>) -> (r: Option<Self>) {
        let mut out: Vec<u32> = Vec::new();
        let mut i: usize = 0;
        while i < vals.len()
            invariant
                i <= vals@.len(),
                out@.len() == i,
                forall|k: int| 0 <= k < i ==> out@[k] as u64 == vals@[k],
                forall|k: int| 0 <= k < i ==> #[trigger] vals@[k] <= u32::MAX,
            decreases vals@.len() - i,
        {
            if vals[i] > 0xFFFF_FFFF {
                return None;
            }
            out.push(vals[i] as u32);
            i = i + 1;
        }
        assert(out.values() =~= vals@);
        Some(out)
    }
}

impl Packed for Vec<u64> {
    open spec fn values(&self) -> Seq<u64> {
        self@
    }

    fn index(&self, index: usize) -> (r: u64) {
        self[index]
    }

    fn size_in_bytes(&self) -> (r: usize) {
        if self.len() <= usize::MAX / 8 {
            self.len() * 8
        } else {
            usize::MAX
        }
    }
}

impl MutPacked for Vec<u64> {
    open spec fn holds(vals: Seq<u64>) -> bool {
        true
    }

    fn try_new(vals: Vec<u64>) -> (r: Option<Self>) {
        Some(vals)
    }
}

} // verus!
