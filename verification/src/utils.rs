//! Small shared pieces: a string-keyed table and the traits the passes share.
use vstd::prelude::*;

verus! {

/// A finite map from names to values, kept in insertion order.
///
/// Every name occurs at most once.
#[derive(Debug)]
pub struct StringMap<V> {
    entries: Vec<(String, V)>,
}

impl<V> StringMap<V> {
    /// No name occurs twice.
    pub closed spec fn wf(&self) -> bool {
        forall|i: int, j: int|
            0 <= i < j < self.entries@.len() ==> #[trigger] self.entries@[i].0@
                != #[trigger] self.entries@[j].0@
    }

    /// The names and values, as a sequence of pairs in insertion order.
    pub closed spec fn spec_entries(&self) -> Seq<(String, V)> {
        self.entries@
    }

    /// Whether `key` has an entry.
    pub open spec fn spec_has(&self, key: Seq<char>) -> bool {
        exists|i: int| 0 <= i < self.spec_entries().len() && #[trigger] self.spec_entries()[i].0@ == key
    }

    /// The index of the entry for `key`.
    pub open spec fn spec_index_of(&self, key: Seq<char>) -> int {
        choose|i: int| 0 <= i < self.spec_entries().len() && #[trigger] self.spec_entries()[i].0@ == key
    }

    /// The value stored for `key` (meaningful only when `spec_has(key)`).
    pub open spec fn spec_get(&self, key: Seq<char>) -> V {
        self.spec_entries()[self.spec_index_of(key)].1
    }

    /// The table as a map.
    pub open spec fn spec_map(&self) -> Map<Seq<char>, V> {
        Map::new(|k: Seq<char>| self.spec_has(k), |k: Seq<char>| self.spec_get(k))
    }

    pub proof fn lemma_index(&self, i: int)
        requires
            self.wf(),
            0 <= i < self.spec_entries().len(),
        ensures
            self.spec_has(self.spec_entries()[i].0@),
            self.spec_index_of(self.spec_entries()[i].0@) == i,
            self.spec_get(self.spec_entries()[i].0@) == self.spec_entries()[i].1,
    {
        let k = self.spec_entries()[i].0@;
        assert(self.spec_entries()[i].0@ == k);
        let j = self.spec_index_of(k);
        if j != i {
            if j < i {
                assert(self.entries@[j].0@ != self.entries@[i].0@);
            } else {
                assert(self.entries@[i].0@ != self.entries@[j].0@);
            }
        }
    }

    /// The names of the entries, in insertion order.
    pub open spec fn spec_keys(&self) -> Seq<Seq<char>> {
        self.spec_entries().map_values(|e: (String, V)| e.0@)
    }

    /// The names with an entry are those of the entries, as many as there are entries.
    pub proof fn lemma_dom(&self)
        requires
            self.wf(),
        ensures
            self.spec_map().dom() == self.spec_keys().to_set(),
            self.spec_map().dom().finite(),
            self.spec_map().dom().len() == self.spec_entries().len(),
    {
        let keys = self.spec_keys();
        assert forall|i: int, j: int| 0 <= i < keys.len() && 0 <= j < keys.len() && i != j implies keys[i]
            != keys[j] by {
            if i < j {
                assert(self.entries@[i].0@ != self.entries@[j].0@);
            } else {
                assert(self.entries@[j].0@ != self.entries@[i].0@);
            }
        }
        assert forall|k: Seq<char>| self.spec_map().dom().contains(k) <==> keys.to_set().contains(k) by {
            if self.spec_has(k) {
                let i = choose|i: int| 0 <= i < self.spec_entries().len() && #[trigger] self.spec_entries()[i].0@ == k;
                assert(keys[i] == k);
            }
            if keys.contains(k) {
                let i = choose|i: int| 0 <= i < keys.len() && keys[i] == k;
                assert(self.spec_entries()[i].0@ == k);
            }
        }
        assert(self.spec_map().dom() =~= keys.to_set());
        keys.unique_seq_to_set();
        vstd::seq_lib::seq_to_set_is_finite(keys);
    }

    /// An empty table.
    pub fn new() -> (r: Self)
        ensures
            r.wf(),
            r.spec_entries().len() == 0,
            r.spec_map() =~= Map::<Seq<char>, V>::empty(),
    {
        StringMap { entries: Vec::new() }
    }

    /// The number of entries.
    pub fn len(&self) -> (r: usize)
        ensures
            r == self.spec_entries().len(),
    {
        self.entries.len()
    }

    /// The name and value of entry `i`, in insertion order.
    pub fn entry(&self, i: usize) -> (r: (&String, &V))
        requires
            i < self.spec_entries().len(),
        ensures
            *r.0 == self.spec_entries()[i as int].0,
            *r.1 == self.spec_entries()[i as int].1,
    {
        (&self.entries[i].0, &self.entries[i].1)
    }

    /// The value of entry `i`, in insertion order, to be changed in place.
    pub fn value_mut(&mut self, i: usize) -> (r: &mut V)
        requires
            i < old(self).spec_entries().len(),
        ensures
            *r == old(self).spec_entries()[i as int].1,
            old(self).wf() ==> final(self).wf(),
            final(self).spec_entries() == old(self).spec_entries().update(
                i as int,
                (old(self).spec_entries()[i as int].0, *final(r)),
            ),
    {
        &mut self.entries[i].1
    }

    /// The position of `key`, if it has an entry.
    fn find(&self, key: &String) -> (r: Option<usize>)
        requires
            self.wf(),
        ensures
            r matches Some(i) ==> i < self.spec_entries().len() && self.spec_entries()[i as int].0@ == key@
                && self.spec_index_of(key@) == i,
            r is None ==> !self.spec_has(key@),
    {
        let mut i: usize = 0;
        while i < self.entries.len()
            invariant
                self.wf(),
                i <= self.entries@.len(),
                forall|j: int| 0 <= j < i ==> self.entries@[j].0@ != key@,
            decreases self.entries@.len() - i,
        {
            if self.entries[i].0 == *key {
                proof {
                    self.lemma_index(i as int);
                }
                return Some(i);
            }
            i = i + 1;
        }
        None
    }

    /// Whether `key` has an entry.
    pub fn contains_key(&self, key: &String) -> (r: bool)
        requires
            self.wf(),
        ensures
            r == self.spec_map().dom().contains(key@),
    {
        self.find(key).is_some()
    }

    /// The value stored for `key`, if any.
    pub fn get(&self, key: &String) -> (r: Option<&V>)
        requires
            self.wf(),
        ensures
            r is Some == self.spec_map().dom().contains(key@),
            r matches Some(v) ==> *v == self.spec_map()[key@],
    {
        match self.find(key) {
            Some(i) => Some(&self.entries[i].1),
            None => None,
        }
    }

    /// Adds an entry for `key`, which has none, after the others.
    pub fn insert_new(&mut self, key: String, value: V)
        requires
            old(self).wf(),
            !old(self).spec_map().dom().contains(key@),
        ensures
            final(self).wf(),
            final(self).spec_entries() == old(self).spec_entries().push((key, value)),
            final(self).spec_keys() == old(self).spec_keys().push(key@),
    {
        let ghost k = key@;
        self.entries.push((key, value));
        proof {
            assert forall|a: int, b: int|
                0 <= a < b < self.entries@.len() implies #[trigger] self.entries@[a].0@
                != #[trigger] self.entries@[b].0@ by {
                assert(self.entries@[a] == old(self).entries@[a]);
                if b < self.entries@.len() - 1 {
                    assert(self.entries@[b] == old(self).entries@[b]);
                } else if old(self).spec_entries()[a].0@ == k {
                    assert(old(self).spec_has(k));
                }
            }
            assert(self.spec_keys() =~= old(self).spec_keys().push(k));
        }
    }

    /// Stores `value` for `key`, and returns the value stored before, if any.
    pub fn insert(&mut self, key: String, value: V) -> (r: Option<V>)
        requires
            old(self).wf(),
        ensures
            final(self).wf(),
            final(self).spec_map() =~= old(self).spec_map().insert(key@, value),
            r is Some == old(self).spec_map().dom().contains(key@),
            r matches Some(v) ==> v == old(self).spec_map()[key@],
    {
        let ghost k = key@;
        let ghost old_map = self.spec_map();
        match self.find(&key) {
            Some(i) => {
                let (_, old_value) = self.entries.remove(i);
                self.entries.push((key, value));
                proof {
                    let n = self.entries@.len();
                    assert forall|a: int, b: int|
                        0 <= a < b < self.entries@.len() implies #[trigger] self.entries@[a].0@
                        != #[trigger] self.entries@[b].0@ by {
                        if b == n - 1 {
                            let a0 = if a < i { a } else { a + 1 };
                            assert(self.entries@[a] == old(self).entries@[a0]);
                            if a0 < i {
                                assert(old(self).entries@[a0].0@ != old(self).entries@[i as int].0@);
                            } else {
                                assert(old(self).entries@[i as int].0@ != old(self).entries@[a0].0@);
                            }
                        } else {
                            let a0 = if a < i { a } else { a + 1 };
                            let b0 = if b < i { b } else { b + 1 };
                            assert(self.entries@[a] == old(self).entries@[a0]);
                            assert(self.entries@[b] == old(self).entries@[b0]);
                            assert(old(self).entries@[a0].0@ != old(self).entries@[b0].0@);
                        }
                    }
                    self.lemma_index(n - 1);
                    assert forall|x: Seq<char>| #[trigger] self.spec_map().dom().contains(x) <==> old_map.insert(k, value).dom().contains(x) by {
                        if x != k {
                            if old(self).spec_has(x) {
                                let j = old(self).spec_index_of(x);
                                let j2 = if j < i { j } else { j - 1 };
                                assert(self.entries@[j2] == old(self).entries@[j]);
                            }
                            if self.spec_has(x) {
                                let j = self.spec_index_of(x);
                                let j0 = if j < i { j } else { j + 1 };
                                assert(self.entries@[j] == old(self).entries@[j0]);
                            }
                        }
                    }
                    assert forall|x: Seq<char>| #[trigger] self.spec_map().dom().contains(x) implies self.spec_map()[x] == old_map.insert(k, value)[x] by {
                        if x != k {
                            let j = old(self).spec_index_of(x);
                            let j2 = if j < i { j } else { j - 1 };
                            assert(self.entries@[j2] == old(self).entries@[j]);
                            self.lemma_index(j2);
                            old(self).lemma_index(j);
                        }
                    }
                    old(self).lemma_index(i as int);
                }
                Some(old_value)
            }
            None => {
                self.entries.push((key, value));
                proof {
                    let n = self.entries@.len();
                    assert forall|a: int, b: int|
                        0 <= a < b < self.entries@.len() implies #[trigger] self.entries@[a].0@
                        != #[trigger] self.entries@[b].0@ by {
                        assert(self.entries@[a] == old(self).entries@[a]);
                        if b < n - 1 {
                            assert(self.entries@[b] == old(self).entries@[b]);
                        } else {
                            if old(self).spec_entries()[a].0@ == k {
                                assert(old(self).spec_has(k));
                            }
                        }
                    }
                    self.lemma_index(n - 1);
                    assert forall|x: Seq<char>| #[trigger] self.spec_map().dom().contains(x) <==> old_map.insert(k, value).dom().contains(x) by {
                        if x != k {
                            if old(self).spec_has(x) {
                                let j = old(self).spec_index_of(x);
                                assert(self.entries@[j] == old(self).entries@[j]);
                                assert(self.spec_entries()[j].0@ == x);
                            }
                            if self.spec_has(x) {
                                let j = self.spec_index_of(x);
                                if j < n - 1 {
                                    assert(self.entries@[j] == old(self).entries@[j]);
                                    assert(old(self).spec_entries()[j].0@ == x);
                                }
                            }
                        }
                    }
                    assert forall|x: Seq<char>| #[trigger] self.spec_map().dom().contains(x) implies self.spec_map()[x] == old_map.insert(k, value)[x] by {
                        if x != k {
                            let j0 = self.spec_index_of(x);
                            if j0 < n - 1 {
                                assert(self.entries@[j0] == old(self).entries@[j0]);
                            }
                            let j = old(self).spec_index_of(x);
                            assert(self.entries@[j] == old(self).entries@[j]);
                            self.lemma_index(j);
                            old(self).lemma_index(j);
                        }
                    }
                }
                None
            }
        }
    }
}


/// The character of a decimal digit.
pub open spec fn digit_char(d: nat) -> char {
    if d == 0 {
        '0'
    } else if d == 1 {
        '1'
    } else if d == 2 {
        '2'
    } else if d == 3 {
        '3'
    } else if d == 4 {
        '4'
    } else if d == 5 {
        '5'
    } else if d == 6 {
        '6'
    } else if d == 7 {
        '7'
    } else if d == 8 {
        '8'
    } else {
        '9'
    }
}

/// The decimal notation of `n`, without leading zeros.
pub open spec fn decimal(n: nat) -> Seq<char>
    decreases n,
{
    if n < 10 {
        seq![digit_char(n)]
    } else {
        decimal(n / 10).push(digit_char(n % 10))
    }
}

/// The decimal notation of `i`, with a leading `-` when it is negative.
pub open spec fn signed_decimal(i: int) -> Seq<char> {
    if i < 0 {
        seq!['-'] + decimal((-i) as nat)
    } else {
        decimal(i as nat)
    }
}

fn digit_str(d: u8) -> (r: &'static str)
    requires
        d < 10,
    ensures
        r@ == seq![digit_char(d as nat)],
{
    proof {
        reveal_strlit("0");
        reveal_strlit("1");
        reveal_strlit("2");
        reveal_strlit("3");
        reveal_strlit("4");
        reveal_strlit("5");
        reveal_strlit("6");
        reveal_strlit("7");
        reveal_strlit("8");
        reveal_strlit("9");
    }
    match d {
        0 => "0",
        1 => "1",
        2 => "2",
        3 => "3",
        4 => "4",
        5 => "5",
        6 => "6",
        7 => "7",
        8 => "8",
        _ => "9",
    }
}

/// Appends the decimal notation of `n` to `out`.
pub fn push_decimal(out: &mut String, n: u128)
    ensures
        final(out)@ == old(out)@ + decimal(n as nat),
    decreases n,
{
    if n >= 10 {
        push_decimal(out, n / 10);
    }
    let d = (n % 10) as u8;
    out.append(digit_str(d));
    proof {
        assert(old(out)@ + decimal(n as nat) =~= old(out)@ + decimal((n / 10) as nat) + seq![
            digit_char((n % 10) as nat),
        ] || n < 10);
    }
}

/// Appends the decimal notation of `i`, with a leading `-` when it is negative, to `out`.
pub fn push_signed_decimal(out: &mut String, i: i128)
    ensures
        final(out)@ == old(out)@ + signed_decimal(i as int),
{
    if i < 0 {
        out.append("-");
        proof {
            reveal_strlit("-");
        }
        let magnitude: u128 = ((-(i + 1)) as u128) + 1;
        push_decimal(out, magnitude);
        assert(out@ =~= old(out)@ + signed_decimal(i as int)) by {
            assert(magnitude as int == -(i as int));
        }
    } else {
        push_decimal(out, i as u128);
    }
}

/// The decimal notation of `n`.
pub fn decimal_string(n: u128) -> (r: String)
    ensures
        r@ == decimal(n as nat),
{
    let mut s = String::new();
    push_decimal(&mut s, n);
    assert(s@ =~= decimal(n as nat));
    s
}

/// The character of a hexadecimal digit, in lower case.
pub open spec fn hex_digit_char(d: nat) -> char {
    if d < 10 {
        digit_char(d)
    } else if d == 10 {
        'a'
    } else if d == 11 {
        'b'
    } else if d == 12 {
        'c'
    } else if d == 13 {
        'd'
    } else if d == 14 {
        'e'
    } else {
        'f'
    }
}

/// The hexadecimal notation of `n`, in lower case and without leading zeros.
pub open spec fn hex(n: nat) -> Seq<char>
    decreases n,
{
    if n < 16 {
        seq![hex_digit_char(n)]
    } else {
        hex(n / 16).push(hex_digit_char(n % 16))
    }
}

fn hex_digit_str(d: u8) -> (r: &'static str)
    requires
        d < 16,
    ensures
        r@ == seq![hex_digit_char(d as nat)],
{
    if d < 10 {
        return digit_str(d);
    }
    proof {
        reveal_strlit("a");
        reveal_strlit("b");
        reveal_strlit("c");
        reveal_strlit("d");
        reveal_strlit("e");
        reveal_strlit("f");
    }
    match d {
        10 => "a",
        11 => "b",
        12 => "c",
        13 => "d",
        14 => "e",
        _ => "f",
    }
}

/// Appends the hexadecimal notation of `n` to `out`.
pub fn push_hex(out: &mut String, n: u128)
    ensures
        final(out)@ == old(out)@ + hex(n as nat),
    decreases n,
{
    if n >= 16 {
        push_hex(out, n / 16);
    }
    let d = (n % 16) as u8;
    out.append(hex_digit_str(d));
    proof {
        assert(old(out)@ + hex(n as nat) =~= old(out)@ + hex((n / 16) as nat) + seq![
            hex_digit_char((n % 16) as nat),
        ] || n < 16);
    }
}

/// The value of a 64-bit pattern read as a two's complement signed number.
pub open spec fn signed_u64(v: u64) -> int {
    if v < 0x8000_0000_0000_0000 {
        v as int
    } else {
        v - 0x1_0000_0000_0000_0000
    }
}

/// Appends the decimal notation of the 64-bit pattern `v` read as a signed number.
pub fn push_signed_u64(out: &mut String, v: u64)
    ensures
        final(out)@ == old(out)@ + signed_decimal(signed_u64(v)),
{
    let i: i64 = v as i64;
    assert(v < 0x8000_0000_0000_0000 ==> i == v) by (bit_vector)
        requires
            i == v as i64,
    ;
    assert(v >= 0x8000_0000_0000_0000 ==> i == v - 0x1_0000_0000_0000_0000) by (bit_vector)
        requires
            i == v as i64,
    ;
    push_signed_decimal(out, i as i128);
}

} // verus!
