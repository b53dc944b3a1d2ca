use vstd::prelude::*;

use crate::error::ErrorCode;

verus! {

/// Read access, by position, to the group-by keys of a column.
pub trait KeysColumnIter<T> {
    spec fn keys(&self) -> Seq<T>;

    fn key_count(&self) -> (r: usize)
        ensures
            r == self.keys().len(),
    ;

    fn key(&self, i: usize) -> (r: &T)
        requires
            i < self.keys().len(),
        ensures
            *r == self.keys()[i as int],
    ;
}

fn copy_column<T: Copy>(column: &Vec<T>) -> (r: Vec<T>)
    ensures
        r@ == column@,
{
    let mut out: Vec<T> = Vec::new();
    let mut i: usize = 0;
    while i < column.len()
        invariant
            i <= column@.len(),
            out@ == column@.subrange(0, i as int),
        decreases column@.len() - i,
    {
        out.push(column[i]);
        i = i + 1;
        assert(out@ =~= column@.subrange(0, i as int));
    }
    assert(column@.subrange(0, i as int) =~= column@);
    out
}

/// Keys of a fixed-width numeric column.
pub struct FixedKeysColumnIter<T: Copy> {
    pub column: Vec<T>,
}

impl<T: Copy> FixedKeysColumnIter<T> {
    pub fn create(column: &Vec<T>) -> (r: Result<Self, ErrorCode>)
        ensures
            r is Ok,
            r->Ok_0.column@ == column@,
    {
        Ok(FixedKeysColumnIter { column: copy_column(column) })
    }
}

impl<T: Copy> KeysColumnIter<T> for FixedKeysColumnIter<T> {
    open spec fn keys(&self) -> Seq<T> {
        self.column@
    }

    fn key_count(&self) -> (r: usize) {
        self.column.len()
    }

    fn key(&self, i: usize) -> (r: &T) {
        &self.column[i]
    }
}

/// Keys wider than a machine word, held by the column they were built into.
pub struct LargeFixedKeysColumnIter<T: Copy> {
    pub holder: Vec<T>,
}

impl<T: Copy> LargeFixedKeysColumnIter<T> {
    pub fn create(holder: Vec<T>) -> (r: Result<Self, ErrorCode>)
        ensures
            r is Ok,
            r->Ok_0.holder@ == holder@,
    {
        Ok(LargeFixedKeysColumnIter { holder })
    }
}

impl<T: Copy> KeysColumnIter<T> for LargeFixedKeysColumnIter<T> {
    open spec fn keys(&self) -> Seq<T> {
        self.holder@
    }

    fn key_count(&self) -> (r: usize) {
        self.holder.len()
    }

    fn key(&self, i: usize) -> (r: &T) {
        &self.holder[i]
    }
}

/// Keys serialized to bytes, one byte string per row.
pub struct SerializedKeysColumnIter {
    pub column: Vec<Vec<u8>>,
}

impl SerializedKeysColumnIter {
    pub fn create(column: &Vec<Vec<u8>>) -> (r: Result<SerializedKeysColumnIter, ErrorCode>)
        ensures
            r is Ok,
            r->Ok_0.column@.len() == column@.len(),
            forall|i: int| 0 <= i < column@.len() ==> (#[trigger] r->Ok_0.column@[i])@ == column@[i]@,
    {
        let mut out: Vec<Vec<u8>> = Vec::new();
        let mut i: usize = 0;
        while i < column.len()
            invariant
                i <= column@.len(),
                out@.len() == i,
                forall|k: int| 0 <= k < i ==> (#[trigger] out@[k])@ == column@[k]@,
            decreases column@.len() - i,
        {
            out.push(copy_column(&column[i]));
            i = i + 1;
        }
        Ok(SerializedKeysColumnIter { column: out })
    }
}

impl KeysColumnIter<Vec<u8>> for SerializedKeysColumnIter {
    open spec fn keys(&self) -> Seq<Vec<u8>> {
        self.column@
    }

    fn key_count(&self) -> (r: usize) {
        self.column.len()
    }

    fn key(&self, i: usize) -> (r: &Vec<u8>) {
        &self.column[i]
    }
}

} // verus!
