use vstd::prelude::*;

verus! {

/// A property value as a player reports it on the bus: a tagged union that
/// keeps the shapes the control logic reads and nothing else.
pub enum PropValue {
    /// Any integer that the bus reports as fitting a signed 64-bit integer.
    Int64(i64),
    /// An unsigned 64-bit integer (the bus reports no signed reading for it).
    UInt64(u64),
    Str(String),
    Array(Vec<PropValue>),
    /// A variant wrapper around a single value.
    Variant(Box<PropValue>),
    /// Any other shape (floats, dictionaries, object paths, ...).
    Other,
}

/// The signed-integer reading of a value, seen through variant wrappers.
pub open spec fn int64_of(v: PropValue) -> Option<i64>
    decreases v,
{
    match v {
        PropValue::Int64(x) => Some(x),
        PropValue::Variant(b) => int64_of(*b),
        _ => None,
    }
}

/// The unsigned-integer reading of a value, seen through variant wrappers.
pub open spec fn uint64_of(v: PropValue) -> Option<u64>
    decreases v,
{
    match v {
        PropValue::UInt64(x) => Some(x),
        PropValue::Variant(b) => uint64_of(*b),
        _ => None,
    }
}

/// The string reading of a value, seen through variant wrappers.
pub open spec fn str_of(v: PropValue) -> Option<Seq<char>>
    decreases v,
{
    match v {
        PropValue::Str(s) => Some(s@),
        PropValue::Variant(b) => str_of(*b),
        _ => None,
    }
}

/// The items of a value read as a sequence: the elements of an array, or the
/// single value that a variant wraps.
pub open spec fn items_of(v: PropValue) -> Option<Seq<PropValue>> {
    match v {
        PropValue::Array(xs) => Some(xs@),
        PropValue::Variant(b) => Some(seq![*b]),
        _ => None,
    }
}

impl PropValue {
    pub fn as_i64(&self) -> (r: Option<i64>)
        ensures
            r == int64_of(*self),
        decreases *self,
    {
        match self {
            PropValue::Int64(x) => Some(*x),
            PropValue::Variant(b) => b.as_i64(),
            _ => None,
        }
    }

    pub fn as_u64(&self) -> (r: Option<u64>)
        ensures
            r == uint64_of(*self),
        decreases *self,
    {
        match self {
            PropValue::UInt64(x) => Some(*x),
            PropValue::Variant(b) => b.as_u64(),
            _ => None,
        }
    }

    pub fn as_str(&self) -> (r: Option<&String>)
        ensures
            r matches Some(s) ==> str_of(*self) == Some(s@),
            r is None ==> str_of(*self) is None,
        decreases *self,
    {
        match self {
            PropValue::Str(s) => Some(s),
            PropValue::Variant(b) => b.as_str(),
            _ => None,
        }
    }
}

/// The value stored under `key` in a list of entries: the first entry with
/// that key wins.
pub open spec fn lookup(entries: Seq<(String, PropValue)>, key: Seq<char>) -> Option<PropValue>
    decreases entries.len(),
{
    if entries.len() == 0 {
        None
    } else if entries[0].0@ == key {
        Some(entries[0].1)
    } else {
        lookup(entries.skip(1), key)
    }
}

/// A player's metadata property: a map from string keys to property values.
///
/// The entries are held as a list searched front to back, newest first,
/// rather than in a hash map: vstd specifies `HashMap` lookups for integer
/// keys, and with `String` keys nothing about a lookup can be proved, while
/// here `get` is proved exact against `get_spec`.
pub struct MetadataMap {
    entries: Vec<(String, PropValue)>,
}

impl MetadataMap {
    /// The value stored under `key`.
    pub open spec fn get_spec(&self, key: Seq<char>) -> Option<PropValue> {
        lookup(self.entries_spec(), key)
    }

    pub closed spec fn entries_spec(&self) -> Seq<(String, PropValue)> {
        self.entries@
    }

    pub fn new() -> (r: MetadataMap)
        ensures
            forall|k: Seq<char>| r.get_spec(k) is None,
    {
        MetadataMap { entries: Vec::new() }
    }

    /// Stores `value` under `key`, replacing what was stored there.
    pub fn insert(&mut self, key: String, value: PropValue)
        ensures
            final(self).get_spec(key@) == Some(value),
            forall|k: Seq<char>| k != key@ ==> final(self).get_spec(k) == old(self).get_spec(k),
    {
        let ghost old_entries = self.entries@;
        self.entries.insert(0, (key, value));
        proof {
            assert(self.entries@.skip(1) =~= old_entries);
        }
    }

    pub fn get(&self, key: &str) -> (r: Option<&PropValue>)
        ensures
            r matches Some(v) ==> self.get_spec(key@) == Some(*v),
            r is None ==> self.get_spec(key@) is None,
    {
        let n = self.entries.len();
        let mut i: usize = 0;
        proof {
            assert(self.entries@.skip(0) =~= self.entries@);
        }
        while i < n
            invariant
                n == self.entries@.len(),
                i <= n,
                lookup(self.entries@, key@) == lookup(self.entries@.skip(i as int), key@),
            decreases n - i,
        {
            proof {
                assert(self.entries@.skip(i as int).skip(1) == self.entries@.skip(i + 1));
            }
            if str_eq(self.entries[i].0.as_str(), key) {
                return Some(&self.entries[i].1);
            }
            i = i + 1;
        }
        None
    }
}

/// Whether two strings hold the same characters.
pub fn str_eq(a: &str, b: &str) -> (r: bool)
    ensures
        r == (a@ == b@),
{
    let n = a.unicode_len();
    if n != b.unicode_len() {
        return false;
    }
    let mut i: usize = 0;
    while i < n
        invariant
            n == a@.len(),
            n == b@.len(),
            i <= n,
            forall|j: int| 0 <= j < i ==> a@[j] == b@[j],
        decreases n - i,
    {
        if a.get_char(i) != b.get_char(i) {
            return false;
        }
        i = i + 1;
    }
    proof {
        assert(a@ =~= b@);
    }
    true
}

} // verus!
