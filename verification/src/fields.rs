use vstd::prelude::*;
use vstd::slice::slice_subrange;
use crate::text::nul_free;

verus! {

/// `i` is the place of the first separator.
pub open spec fn is_first<T>(s: Seq<T>, sep: T, i: int) -> bool {
    &&& 0 <= i < s.len()
    &&& s[i] == sep
    &&& forall|j: int| 0 <= j < i ==> s[j] != sep
}

/// The separator does not occur.
pub open spec fn free_of<T>(s: Seq<T>, sep: T) -> bool {
    forall|j: int| 0 <= j < s.len() ==> s[j] != sep
}

/// The parts that the separator divides a sequence into: one more part than
/// there are separators, so a sequence that ends in a separator ends in an
/// empty part.
pub open spec fn split_on<T>(s: Seq<T>, sep: T) -> Seq<Seq<T>>
    decreases s.len(),
{
    if exists|i: int| is_first(s, sep, i) {
        let i = choose|i: int| is_first(s, sep, i);
        seq![s.subrange(0, i)] + split_on(s.subrange(i + 1, s.len() as int), sep)
    } else {
        seq![s]
    }
}

/// A sequence without separator is one part.
pub proof fn lemma_split_free<T>(s: Seq<T>, sep: T)
    requires
        free_of(s, sep),
    ensures
        split_on(s, sep) == seq![s],
{
    assert(!exists|i: int| is_first(s, sep, i));
}

/// At the first separator the first part ends and the rest is split on its
/// own.
pub proof fn lemma_split_at_first<T>(s: Seq<T>, sep: T, i: int)
    requires
        is_first(s, sep, i),
    ensures
        split_on(s, sep) == seq![s.subrange(0, i)] + split_on(
            s.subrange(i + 1, s.len() as int),
            sep,
        ),
{
    let c = choose|c: int| is_first(s, sep, c);
    assert(c == i) by {
        if c < i {
            assert(s[c] != sep);
        }
        if i < c {
            assert(s[i] != sep);
        }
    }
}

/// No part holds the separator, and there is at least one part.
pub proof fn lemma_split_parts_free<T>(s: Seq<T>, sep: T)
    ensures
        split_on(s, sep).len() >= 1,
        forall|k: int| 0 <= k < split_on(s, sep).len() ==> free_of(#[trigger] split_on(s, sep)[k], sep),
    decreases s.len(),
{
    if exists|i: int| is_first(s, sep, i) {
        let i = choose|i: int| is_first(s, sep, i);
        let rest = s.subrange(i + 1, s.len() as int);
        lemma_split_parts_free(rest, sep);
        let head = s.subrange(0, i);
        assert(free_of(head, sep));
        let parts = split_on(s, sep);
        assert forall|k: int| 0 <= k < parts.len() implies free_of(#[trigger] parts[k], sep) by {
            if k > 0 {
                assert(parts[k] == split_on(rest, sep)[k - 1]);
            }
        }
    } else {
        assert forall|j: int| 0 <= j < s.len() implies s[j] != sep by {
            if s[j] == sep {
                lemma_first_exists(s, sep, j);
            }
        }
    }
}

/// Where the separator occurs there is a first place of it.
pub proof fn lemma_first_exists<T>(s: Seq<T>, sep: T, j: int)
    requires
        0 <= j < s.len(),
        s[j] == sep,
    ensures
        exists|i: int| is_first(s, sep, i),
    decreases j,
{
    if exists|k: int| 0 <= k < j && s[k] == sep {
        let k = choose|k: int| 0 <= k < j && s[k] == sep;
        lemma_first_exists(s, sep, k);
    } else {
        assert(is_first(s, sep, j));
    }
}

/// `i` is the place of the first NUL byte.
pub open spec fn is_first_nul(bytes: Seq<u8>, i: int) -> bool {
    is_first(bytes, 0u8, i)
}

/// The fields that NUL bytes separate: one more field than there are NUL
/// bytes, so a sequence that ends in NUL ends in an empty field.
pub open spec fn split_nul(bytes: Seq<u8>) -> Seq<Seq<u8>> {
    split_on(bytes, 0u8)
}

/// A sequence without NUL is one field.
pub proof fn lemma_split_nul_free(bytes: Seq<u8>)
    requires
        nul_free(bytes),
    ensures
        split_nul(bytes) == seq![bytes],
{
    lemma_split_free(bytes, 0u8);
}

/// At the first NUL the first field ends and the rest is split on its own.
pub proof fn lemma_split_at_first_nul(bytes: Seq<u8>, i: int)
    requires
        is_first_nul(bytes, i),
    ensures
        split_nul(bytes) == seq![bytes.subrange(0, i)] + split_nul(
            bytes.subrange(i + 1, bytes.len() as int),
        ),
{
    lemma_split_at_first(bytes, 0u8, i);
}

/// A field without NUL, a NUL byte and a rest split into that field and the
/// fields of the rest.
pub proof fn lemma_split_field_then_rest(field: Seq<u8>, rest: Seq<u8>)
    requires
        nul_free(field),
    ensures
        split_nul(field + seq![0u8] + rest) == seq![field] + split_nul(rest),
{
    let bytes = field + seq![0u8] + rest;
    let i = field.len() as int;
    assert(is_first_nul(bytes, i)) by {
        assert forall|j: int| 0 <= j < i implies bytes[j] != 0 by {
            assert(bytes[j] == field[j]);
        }
    }
    lemma_split_at_first_nul(bytes, i);
    assert(bytes.subrange(0, i) =~= field);
    assert(bytes.subrange(i + 1, bytes.len() as int) =~= rest);
}

/// The byte sequences that a list of slices holds.
pub open spec fn slice_views(fields: Seq<&[u8]>) -> Seq<Seq<u8>> {
    Seq::new(fields.len(), |i: int| fields[i]@)
}

/// The fields of a byte slice from `start` on, as sub-slices of it.
pub fn split_fields<'a>(buf: &'a [u8], start: usize) -> (r: Vec<&'a [u8]>)
    requires
        start <= buf@.len(),
    ensures
        slice_views(r@) == split_nul(buf@.subrange(start as int, buf@.len() as int)),
        r@.len() >= 1,
{
    let mut out: Vec<&'a [u8]> = Vec::new();
    let mut from: usize = start;
    let mut i: usize = start;
    let ghost whole = buf@.subrange(start as int, buf@.len() as int);
    assert(buf@.subrange(from as int, buf@.len() as int) == whole);
    while i < buf.len()
        invariant
            start <= from <= i <= buf@.len(),
            whole == buf@.subrange(start as int, buf@.len() as int),
            forall|j: int| from <= j < i ==> buf@[j] != 0,
            split_nul(whole) == slice_views(out@) + split_nul(
                buf@.subrange(from as int, buf@.len() as int),
            ),
        decreases buf@.len() - i,
    {
        if buf[i] == 0 {
            let field = slice_subrange(buf, from, i);
            proof {
                let tail = buf@.subrange(from as int, buf@.len() as int);
                assert(is_first_nul(tail, i - from));
                lemma_split_at_first_nul(tail, i - from);
                assert(tail.subrange(0, i - from) =~= field@);
                assert(tail.subrange(i - from + 1, tail.len() as int) =~= buf@.subrange(
                    i + 1,
                    buf@.len() as int,
                ));
                assert(slice_views(out@.push(field)) =~= slice_views(out@) + seq![field@]);
            }
            out.push(field);
            from = i + 1;
        }
        i += 1;
    }
    let field = slice_subrange(buf, from, buf.len());
    proof {
        let tail = buf@.subrange(from as int, buf@.len() as int);
        assert(nul_free(tail));
        lemma_split_nul_free(tail);
        assert(slice_views(out@.push(field)) =~= slice_views(out@) + seq![
            field@,
        ]);
    }
    out.push(field);
    out
}

} // verus!
