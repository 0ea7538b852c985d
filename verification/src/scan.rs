//! Byte-sequence scanning primitives: finding the first occurrence of a
//! separator byte, comparing byte slices, and copying a slice range into a
//! fresh vector. These are the small tools the object and tree codecs are
//! built from.

use vstd::prelude::*;

verus! {

/// The index of the first occurrence of `b` in `s`, if any.
pub open spec fn first_index(s: Seq<u8>, b: u8) -> Option<int>
    decreases s.len(),
{
    if s.len() == 0 {
        None
    } else if s[0] == b {
        Some(0)
    } else {
        match first_index(s.drop_first(), b) {
            Some(i) => Some(i + 1),
            None => None,
        }
    }
}

/// `first_index` returns exactly the smallest index holding `b`.
pub proof fn lemma_first_index_is(s: Seq<u8>, b: u8, i: int)
    requires
        0 <= i < s.len(),
        s[i] == b,
        forall|j: int| 0 <= j < i ==> s[j] != b,
    ensures
        first_index(s, b) == Some(i),
    decreases i,
{
    if i == 0 {
    } else {
        assert(s.drop_first()[i - 1] == b);
        assert(forall|j: int| 0 <= j < i - 1 ==> s.drop_first()[j] != b);
        lemma_first_index_is(s.drop_first(), b, i - 1);
    }
}

/// Where `b` never occurs, `first_index` finds nothing.
pub proof fn lemma_first_index_none(s: Seq<u8>, b: u8)
    requires
        forall|j: int| 0 <= j < s.len() ==> s[j] != b,
    ensures
        first_index(s, b) == None::<int>,
    decreases s.len(),
{
    if s.len() > 0 {
        lemma_first_index_none(s.drop_first(), b);
    }
}

/// What a `Some` answer of `first_index` means.
pub proof fn lemma_first_index_some(s: Seq<u8>, b: u8)
    requires
        first_index(s, b) is Some,
    ensures
        0 <= first_index(s, b)->Some_0 < s.len(),
        s[first_index(s, b)->Some_0] == b,
        forall|j: int| 0 <= j < first_index(s, b)->Some_0 ==> s[j] != b,
    decreases s.len(),
{
    if s[0] != b {
        lemma_first_index_some(s.drop_first(), b);
        assert forall|j: int| 0 <= j < first_index(s, b)->Some_0 implies s[j] != b by {
            if j > 0 {
                assert(s.drop_first()[j - 1] != b);
            }
        }
    }
}

/// Finds the first occurrence of `target` in `bytes` at or after `from`.
pub fn find_byte(bytes: &[u8], from: usize, target: u8) -> (r: Option<usize>)
    requires
        from <= bytes@.len(),
    ensures
        match r {
            Some(i) => from <= i < bytes@.len() && bytes@[i as int] == target
                && (forall|j: int| from <= j < i ==> bytes@[j] != target),
            None => forall|j: int| from <= j < bytes@.len() ==> bytes@[j] != target,
        },
{
    let mut i: usize = from;
    while i < bytes.len()
        invariant
            from <= i <= bytes@.len(),
            forall|j: int| from <= j < i ==> bytes@[j] != target,
        decreases bytes@.len() - i,
    {
        if bytes[i] == target {
            return Some(i);
        }
        i = i + 1;
    }
    None
}

/// Whether two byte slices hold the same bytes.
pub fn bytes_eq(a: &[u8], b: &[u8]) -> (r: bool)
    ensures
        r == (a@ == b@),
{
    if a.len() != b.len() {
        return false;
    }
    let mut i: usize = 0;
    while i < a.len()
        invariant
            a@.len() == b@.len(),
            i <= a@.len(),
            forall|j: int| 0 <= j < i ==> a@[j] == b@[j],
        decreases a@.len() - i,
    {
        if a[i] != b[i] {
            return false;
        }
        i = i + 1;
    }
    proof {
        assert(a@ =~= b@);
    }
    true
}

/// Copies `bytes[from..to]` into a fresh vector.
pub fn copy_range(bytes: &[u8], from: usize, to: usize) -> (r: Vec<u8>)
    requires
        from <= to <= bytes@.len(),
    ensures
        r@ == bytes@.subrange(from as int, to as int),
{
    let mut out: Vec<u8> = Vec::new();
    let mut i: usize = from;
    while i < to
        invariant
            from <= i <= to <= bytes@.len(),
            out@ == bytes@.subrange(from as int, i as int),
        decreases to - i,
    {
        out.push(bytes[i]);
        proof {
            assert(out@ =~= bytes@.subrange(from as int, i + 1 as int));
        }
        i = i + 1;
    }
    out
}

} // verus!
