//! The heap object behind an array: a growable list of slots, each empty or holding
//! a value.
use vstd::prelude::*;

use crate::lang::value::{GValue, ValueKind};
use crate::text::{int_text, int_text_value, nat_decimal, parse_i32, parse_usize, same_text, usize_to_text};

verus! {

/// The slots after storing `v` at `i`: the list grows with empty slots up to `i`.
pub open spec fn store_at(s: Seq<Option<GValue>>, i: int, v: GValue) -> Seq<Option<GValue>> {
    if i < s.len() {
        s.update(i, Some(v))
    } else {
        s + Seq::new((i - s.len()) as nat, |j: int| None::<GValue>) + seq![Some(v)]
    }
}

/// The value read at index `i`: undefined for an empty slot or an index outside the list.
pub open spec fn load_at(s: Seq<Option<GValue>>, i: int) -> GValue {
    if 0 <= i < s.len() {
        match s[i] {
            Some(v) => v,
            None => GValue { kind: ValueKind::Undefined, value: 0 },
        }
    } else {
        GValue { kind: ValueKind::Undefined, value: 0 }
    }
}

#[derive(Debug, Clone)]
pub struct ArrayObject {
    elements: Vec<Option<GValue>>,
}

impl View for ArrayObject {
    type V = Seq<Option<GValue>>;

    closed spec fn view(&self) -> Seq<Option<GValue>> {
        self.elements@
    }
}

impl ArrayObject {
    pub fn new() -> (r: ArrayObject)
        ensures
            r@ == Seq::<Option<GValue>>::empty(),
    {
        ArrayObject { elements: Vec::new() }
    }

    /// Stores `v` at `index`, growing the list with empty slots as needed.
    pub fn set_value_by_index(&mut self, index: i32, v: GValue)
        requires
            0 <= index,
        ensures
            final(self)@ == store_at(old(self)@, index as int, v),
    {
        let idx = index as usize;
        if idx < self.elements.len() {
            self.elements.set(idx, Some(v));
        } else {
            let ghost before = self.elements@;
            while self.elements.len() < idx
                invariant
                    before.len() <= self.elements.len() <= idx,
                    self.elements@ == before + Seq::new((self.elements.len() - before.len()) as nat, |j: int| None::<GValue>),
                decreases idx - self.elements.len(),
            {
                self.elements.push(None);
            }
            self.elements.push(Some(v));
        }
    }

    /// The value at `index`: undefined for an empty slot or an index outside the list.
    pub fn get_value_by_index(&self, index: i32) -> (r: GValue)
        ensures
            r == load_at(self@, index as int),
    {
        if index >= 0 && (index as usize) < self.elements.len() {
            match self.elements[index as usize] {
                Some(v) => v,
                None => GValue::undefined(),
            }
        } else {
            GValue::undefined()
        }
    }

    /// Whether slot `index` holds a value.
    pub fn is_set(&self, index: usize) -> (r: bool)
        ensures
            r == (index < self@.len() && self@[index as int] is Some),
    {
        index < self.elements.len() && self.elements[index].is_some()
    }

    /// The number of slots.
    pub fn get_length(&self) -> (r: i32)
        ensures
            r == self@.len() as i32,
    {
        self.elements.len() as i32
    }

    /// Stores `v` under the key `id` where it names an index; any other key is ignored.
    /// A negative index is refused (the list cannot grow to it).
    pub fn set_value(&mut self, id: &str, v: GValue)
        requires
            index_key(id@) ==> int_text_value(id@) >= 0,
        ensures
            final(self)@ == if index_key(id@) {
                store_at(old(self)@, int_text_value(id@), v)
            } else {
                old(self)@
            },
    {
        match parse_i32(id) {
            Ok(idx) => self.set_value_by_index(idx, v),
            Err(_) => {},
        }
    }

    /// The value under the key `id`: the length under `length`, the slot's value under
    /// an index key where the slot holds one; nothing otherwise.
    pub fn get_value(&self, id: &str) -> (r: Option<GValue>)
        ensures
            r == if id@ == "length"@ {
                Some(GValue { kind: ValueKind::Number, value: self@.len() as i32 })
            } else if index_key(id@) && load_at(self@, int_text_value(id@)).kind != ValueKind::Undefined {
                Some(load_at(self@, int_text_value(id@)))
            } else {
                None::<GValue>
            },
    {
        if same_text(id, "length") {
            return Some(GValue::new(self.get_length(), ValueKind::Number));
        }
        match parse_i32(id) {
            Ok(idx) => {
                let v = self.get_value_by_index(idx);
                if v.kind == ValueKind::Undefined { None } else { Some(v) }
            },
            Err(_) => None,
        }
    }

    /// Whether the key `id` holds something: `length` always; an index key (without a
    /// minus sign) whose slot holds a value.
    pub fn has_value(&self, id: &str) -> (r: bool)
        ensures
            r == (id@ == "length"@ || (int_text(id@, false) && int_text_value(id@) < self@.len()
                && self@[int_text_value(id@)] is Some)),
    {
        if same_text(id, "length") {
            return true;
        }
        let n = self.elements.len();
        match parse_usize(id) {
            Some(idx) => self.is_set(idx),
            None => {
                assert(n <= usize::MAX);
                false
            },
        }
    }

    /// The keys of the slots that hold a value, in order.
    pub fn get_keys(&self) -> (r: Vec<String>)
        ensures
            r@.map_values(|k: String| k@) == set_keys(self@, self@.len() as int),
    {
        let mut r: Vec<String> = Vec::new();
        let mut i: usize = 0;
        while i < self.elements.len()
            invariant
                i <= self.elements@.len(),
                r@.map_values(|k: String| k@) == set_keys(self@, i as int),
            decreases self.elements@.len() - i,
        {
            let ghost before = r@;
            if self.elements[i].is_some() {
                let k = usize_to_text(i);
                r.push(k);
                assert(r@.map_values(|k: String| k@) =~= before.map_values(|k: String| k@).push(k@));
            }
            i += 1;
        }
        r
    }

    /// The values of the slots that hold one, in order.
    pub fn get_values(&self) -> (r: Vec<GValue>)
        ensures
            r@ == set_values(self@, self@.len() as int),
    {
        let mut r: Vec<GValue> = Vec::new();
        let mut i: usize = 0;
        while i < self.elements.len()
            invariant
                i <= self.elements@.len(),
                r@ == set_values(self@, i as int),
            decreases self.elements@.len() - i,
        {
            match self.elements[i] {
                Some(v) => r.push(v),
                None => {},
            }
            i += 1;
        }
        r
    }
}

/// Whether a key names a slot by index: it is an integer text whose value fits in `i32`.
pub open spec fn index_key(id: Seq<char>) -> bool {
    int_text(id, true) && i32::MIN <= int_text_value(id) <= i32::MAX
}

/// The keys of the slots that hold a value, in order: the decimal text of each index.
pub open spec fn set_keys(s: Seq<Option<GValue>>, n: int) -> Seq<Seq<char>>
    decreases n,
{
    if n <= 0 {
        Seq::empty()
    } else if s[n - 1] is Some {
        set_keys(s, n - 1).push(nat_decimal((n - 1) as nat))
    } else {
        set_keys(s, n - 1)
    }
}

/// The values of the slots that hold one, in order.
pub open spec fn set_values(s: Seq<Option<GValue>>, n: int) -> Seq<GValue>
    decreases n,
{
    if n <= 0 {
        Seq::empty()
    } else {
        match s[n - 1] {
            Some(v) => set_values(s, n - 1).push(v),
            None => set_values(s, n - 1),
        }
    }
}

/// Reading an index gives back the value last stored there.
pub proof fn lemma_load_after_store(s: Seq<Option<GValue>>, i: int, v: GValue)
    requires
        0 <= i,
    ensures
        load_at(store_at(s, i, v), i) == v,
{
}

/// Storing at one index leaves every other index as it was.
pub proof fn lemma_store_keeps_others(s: Seq<Option<GValue>>, i: int, v: GValue, j: int)
    requires
        0 <= i,
        j != i,
    ensures
        load_at(store_at(s, i, v), j) == load_at(s, j),
{
}

/// After storing at `i`, the list holds at least `i + 1` slots.
pub proof fn lemma_store_length(s: Seq<Option<GValue>>, i: int, v: GValue)
    requires
        0 <= i,
    ensures
        store_at(s, i, v).len() == if i < s.len() { s.len() as int } else { i + 1 },
{
}

} // verus!
