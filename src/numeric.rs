use vstd::prelude::*;

verus! {

/// The offset that `sync_fn`, `modify_arr` and a new `TestClass` add.
pub const OFFSET: u32 = 100;

/// The sum of two numbers, or `None` when it does not fit in a `u32`.
pub fn add(a: u32, b: u32) -> (r: Option<u32>)
    ensures
        a + b <= u32::MAX ==> r == Some((a + b) as u32),
        a + b > u32::MAX ==> r is None,
{
    a.checked_add(b)
}

/// The argument plus the offset, or `None` when that does not fit in a `u32`.
pub fn sync_fn(argument: u32) -> (r: Option<u32>)
    ensures
        argument + OFFSET <= u32::MAX ==> r == Some((argument + OFFSET) as u32),
        argument + OFFSET > u32::MAX ==> r is None,
{
    argument.checked_add(OFFSET)
}

/// Each element plus the offset, as an `i32`; `None` when some element
/// does not fit.
pub fn modify_arr(input: &Vec<u32>) -> (r: Option<Vec<i32>>)
    ensures
        (forall|i: int| 0 <= i < input@.len() ==> #[trigger] input@[i] + OFFSET <= i32::MAX) ==> (r
            matches Some(out) && out@.len() == input@.len() && forall|i: int|
            0 <= i < input@.len() ==> #[trigger] out@[i] == input@[i] + OFFSET),
        (exists|i: int| 0 <= i < input@.len() && #[trigger] input@[i] + OFFSET > i32::MAX) ==> r
            is None,
{
    let mut out: Vec<i32> = Vec::new();
    let mut k: usize = 0;
    while k < input.len()
        invariant
            k <= input@.len(),
            out@.len() == k,
            forall|i: int| 0 <= i < k ==> #[trigger] out@[i] == input@[i] + OFFSET,
            forall|i: int| 0 <= i < k ==> #[trigger] input@[i] + OFFSET <= i32::MAX,
        decreases input@.len() - k,
    {
        let e = input[k];
        if e > (i32::MAX as u32) - OFFSET {
            return None;
        }
        out.push((e + OFFSET) as i32);
        k = k + 1;
    }
    Some(out)
}

/// The `count` property of a class instance after adding `add` to it, or
/// `None` when the sum does not fit in an `i32`.
pub fn add_count(count: i32, add: i32) -> (r: Option<i32>)
    ensures
        i32::MIN <= count + add <= i32::MAX ==> r == Some((count + add) as i32),
        !(i32::MIN <= count + add <= i32::MAX) ==> r is None,
{
    count.checked_add(add)
}

/// The native state wrapped in a class instance.
#[derive(Clone, Copy, Debug, PartialEq, Eq, Structural)]
pub struct TestClass {
    pub value: i32,
}

impl TestClass {
    /// The native state of an instance constructed with `count`: the count
    /// plus the offset, or `None` when that does not fit in an `i32`.
    pub fn new(count: i32) -> (r: Option<TestClass>)
        ensures
            count + OFFSET <= i32::MAX ==> r == Some(TestClass { value: (count + OFFSET) as i32 }),
            count + OFFSET > i32::MAX ==> r is None,
    {
        match count.checked_add(OFFSET as i32) {
            Some(value) => Some(TestClass { value }),
            None => None,
        }
    }

    /// Adds `add` to the native value and returns the new value; `None`, with
    /// the value unchanged, when the sum does not fit in an `i32`.
    pub fn add_native_count(&mut self, add: i32) -> (r: Option<i32>)
        ensures
            i32::MIN <= old(self).value + add <= i32::MAX ==> r == Some(
                (old(self).value + add) as i32,
            ) && final(self).value == old(self).value + add,
            !(i32::MIN <= old(self).value + add <= i32::MAX) ==> r is None && *final(self) == *old(
                self,
            ),
    {
        match self.value.checked_add(add) {
            Some(v) => {
                self.value = v;
                Some(v)
            },
            None => None,
        }
    }
}

} // verus!
