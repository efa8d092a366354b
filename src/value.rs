use vstd::prelude::*;

verus! {

/// A runtime value. A number is held as the decimal text of its literal:
/// reading that text as a double, and arithmetic on doubles, happen where
/// floating point is available.
#[derive(Debug, Clone)]
pub enum Value {
    Number(Vec<char>),
}

impl Value {
    /// The decimal text of a number.
    pub open spec fn digits(&self) -> Seq<char> {
        match self {
            Value::Number(d) => d@,
        }
    }
}

impl Value {
    /// A copy of the value.
    pub fn duplicate(&self) -> (r: Value)
        ensures
            r.digits() == self.digits(),
    {
        match self {
            Value::Number(d) => Value::Number(d.clone()),
        }
    }
}

/// An append-only table of values.
#[derive(Debug, Clone)]
pub struct ValueArray {
    pub data: Vec<Value>,
}

impl ValueArray {
    pub fn new() -> (r: ValueArray)
        ensures
            r.data@.len() == 0,
    {
        ValueArray { data: Vec::new() }
    }

    pub fn write_value(&mut self, value: Value)
        ensures
            final(self).data@ == old(self).data@.push(value),
    {
        self.data.push(value);
    }

    /// A copy of the table, value by value.
    pub fn duplicate(&self) -> (r: ValueArray)
        ensures
            r.data@.len() == self.data@.len(),
            forall|i: int| 0 <= i < self.data@.len() ==> #[trigger] r.data@[i].digits() == self.data@[i].digits(),
    {
        let mut data: Vec<Value> = Vec::new();
        let mut i: usize = 0;
        while i < self.data.len()
            invariant
                i <= self.data@.len(),
                data@.len() == i,
                forall|j: int| 0 <= j < i ==> #[trigger] data@[j].digits() == self.data@[j].digits(),
            decreases self.data@.len() - i,
        {
            data.push(self.data[i].duplicate());
            i = i + 1;
        }
        ValueArray { data }
    }

    pub fn free(&mut self)
        ensures
            final(self).data@.len() == 0,
    {
        self.data.clear();
    }
}

} // verus!
