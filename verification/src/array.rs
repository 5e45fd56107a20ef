//! The layout of a dynamic array whose elements have no fixed size: the
//! element count, one offset word per element, then the elements end to end.
//! Offsets count from the first offset word.

use crate::codec::{lemma_size_word, read_size, size_word};
use crate::word::{
    be_nat, lemma_be_seq_len, lemma_pow256_widths, push_bytes, push_word, WORD,
};
use vstd::prelude::*;
use vstd::slice::{slice_subrange, slice_to_vec};

verus! {

/// The parts joined end to end, in order.
pub open spec fn concat_all(parts: Seq<Seq<u8>>) -> Seq<u8>
    decreases parts.len(),
{
    if parts.len() == 0 {
        Seq::empty()
    } else {
        concat_all(parts.drop_last()) + parts.last()
    }
}

/// Total length of the first `k` parts.
pub open spec fn prefix_len(parts: Seq<Seq<u8>>, k: nat) -> nat {
    concat_all(parts.take(k as int)).len()
}

/// The offset of the `k`-th part: the offset words of all parts come first,
/// then the parts before it.
pub open spec fn part_offset(parts: Seq<Seq<u8>>, k: nat) -> nat {
    WORD as nat * parts.len() + prefix_len(parts, k)
}

/// The offset words of the first `k` parts.
pub open spec fn heads(parts: Seq<Seq<u8>>, k: nat) -> Seq<u8>
    decreases k,
{
    if k == 0 {
        Seq::empty()
    } else {
        heads(parts, (k - 1) as nat) + size_word(part_offset(parts, (k - 1) as nat))
    }
}

/// The encoding of an array whose elements are encoded as `parts`.
pub open spec fn array_encoding(parts: Seq<Seq<u8>>) -> Seq<u8> {
    size_word(parts.len()) + heads(parts, parts.len()) + concat_all(parts)
}

/// The byte strings that a vector of vectors holds.
pub open spec fn views(parts: Seq<Vec<u8>>) -> Seq<Seq<u8>> {
    Seq::new(parts.len(), |i: int| parts[i]@)
}

/// How the prefix lengths grow: by the length of one part at a time, from
/// zero up to the length of all parts joined.
pub proof fn lemma_prefix_len_step(parts: Seq<Seq<u8>>, k: nat)
    requires
        k < parts.len(),
    ensures
        prefix_len(parts, 0) == 0,
        prefix_len(parts, k + 1) == prefix_len(parts, k) + parts[k as int].len(),
        prefix_len(parts, parts.len()) == concat_all(parts).len(),
{
    assert(parts.take(0) =~= Seq::<Seq<u8>>::empty());
    assert(parts.take(k + 1 as int).drop_last() =~= parts.take(k as int));
    assert(parts.take(k + 1 as int).last() == parts[k as int]);
    assert(parts.take(parts.len() as int) =~= parts);
}

/// Prefix lengths never fall.
pub proof fn lemma_prefix_len_monotonic(parts: Seq<Seq<u8>>, j: nat, k: nat)
    requires
        j <= k <= parts.len(),
    ensures
        prefix_len(parts, j) <= prefix_len(parts, k),
    decreases k - j,
{
    if j < k {
        lemma_prefix_len_step(parts, j);
        lemma_prefix_len_monotonic(parts, j + 1, k);
    }
}

/// The first `k` offset words take `k` words.
pub proof fn lemma_heads_len(parts: Seq<Seq<u8>>, k: nat)
    ensures
        heads(parts, k).len() == WORD * k,
    decreases k,
{
    if k > 0 {
        lemma_heads_len(parts, (k - 1) as nat);
        lemma_be_seq_len(part_offset(parts, (k - 1) as nat), WORD as nat);
    }
}

/// Where the `j`-th offset word stands among the first `k`.
pub proof fn lemma_heads_word(parts: Seq<Seq<u8>>, k: nat, j: nat)
    requires
        j < k,
    ensures
        heads(parts, k).subrange(WORD * j, WORD * j + WORD) == size_word(
            part_offset(parts, j),
        ),
    decreases k,
{
    let before = heads(parts, (k - 1) as nat);
    let last = size_word(part_offset(parts, (k - 1) as nat));
    lemma_heads_len(parts, (k - 1) as nat);
    lemma_be_seq_len(part_offset(parts, (k - 1) as nat), WORD as nat);
    if j == k - 1 {
        assert((before + last).subrange(WORD * j, WORD * j + WORD) =~= last);
    } else {
        lemma_heads_word(parts, (k - 1) as nat, j);
        assert((before + last).subrange(WORD * j, WORD * j + WORD) =~= before.subrange(
            WORD * j,
            WORD * j + WORD,
        ));
    }
}

/// Where the `j`-th part stands in the parts joined end to end.
pub proof fn lemma_concat_all_part(parts: Seq<Seq<u8>>, j: nat)
    requires
        j < parts.len(),
    ensures
        prefix_len(parts, j + 1) <= concat_all(parts).len(),
        concat_all(parts).subrange(prefix_len(parts, j) as int, prefix_len(parts, j + 1) as int)
            == parts[j as int],
    decreases parts.len(),
{
    let init = parts.drop_last();
    lemma_prefix_len_step(parts, j);
    lemma_prefix_len_monotonic(parts, j + 1, parts.len());
    if j == parts.len() - 1 {
        assert(parts.take(j as int) =~= init);
        assert(concat_all(parts).subrange(
            prefix_len(parts, j) as int,
            prefix_len(parts, j + 1) as int,
        ) =~= parts[j as int]);
    } else {
        lemma_concat_all_part(init, j);
        assert(init.take(j as int) =~= parts.take(j as int));
        assert(init.take(j + 1 as int) =~= parts.take(j + 1 as int));
        assert(concat_all(parts).subrange(
            prefix_len(parts, j) as int,
            prefix_len(parts, j + 1) as int,
        ) =~= concat_all(init).subrange(
            prefix_len(init, j) as int,
            prefix_len(init, j + 1) as int,
        ));
    }
}

/// The length of an encoded array.
pub proof fn lemma_array_encoding_len(parts: Seq<Seq<u8>>)
    ensures
        array_encoding(parts).len() == WORD + WORD * parts.len() + concat_all(parts).len(),
        array_encoding(parts).subrange(0, WORD as int) == size_word(parts.len()),
        array_encoding(parts).subrange(
            WORD + WORD * parts.len(),
            array_encoding(parts).len() as int,
        ) == concat_all(parts),
{
    lemma_heads_len(parts, parts.len());
    lemma_be_seq_len(parts.len(), WORD as nat);
    assert(array_encoding(parts).subrange(0, WORD as int) =~= size_word(parts.len()));
    assert(array_encoding(parts).subrange(
        WORD + WORD * parts.len(),
        array_encoding(parts).len() as int,
    ) =~= concat_all(parts));
}

/// The `j`-th offset word of an encoded array, and the part it points to.
pub proof fn lemma_array_encoding_part(parts: Seq<Seq<u8>>, j: nat)
    requires
        j < parts.len(),
    ensures
        array_encoding(parts).subrange(WORD + WORD * j, WORD + WORD * j + WORD) == size_word(
            part_offset(parts, j),
        ),
        WORD + WORD * parts.len() + prefix_len(parts, j + 1) <= array_encoding(parts).len(),
        array_encoding(parts).subrange(
            WORD + WORD * parts.len() + prefix_len(parts, j),
            WORD + WORD * parts.len() + prefix_len(parts, j + 1),
        ) == parts[j as int],
{
    let n = parts.len();
    let run = array_encoding(parts);
    lemma_array_encoding_len(parts);
    lemma_heads_len(parts, n);
    lemma_heads_word(parts, n, j);
    lemma_concat_all_part(parts, j);
    lemma_prefix_len_step(parts, j);
    lemma_be_seq_len(n, WORD as nat);
    assert(run.subrange(WORD + WORD * j, WORD + WORD * j + WORD) =~= heads(parts, n).subrange(
        WORD * j,
        WORD * j + WORD,
    ));
    assert(run.subrange(
        WORD + WORD * n + prefix_len(parts, j),
        WORD + WORD * n + prefix_len(parts, j + 1),
    ) =~= concat_all(parts).subrange(
        prefix_len(parts, j) as int,
        prefix_len(parts, j + 1) as int,
    ));
}

/// The `j`-th offset word of an encoded array `data`.
pub open spec fn head_word(data: Seq<u8>, j: int) -> Seq<u8> {
    data.subrange(WORD + WORD * j, WORD + WORD * j + WORD)
}

/// Offset words that are right one by one are right together.
pub proof fn lemma_heads_from_words(data: Seq<u8>, parts: Seq<Seq<u8>>, k: nat)
    requires
        k <= parts.len(),
        WORD + WORD * k <= data.len(),
        forall|j: int|
            0 <= j < k ==> #[trigger] head_word(data, j) == size_word(part_offset(parts, j as nat)),
    ensures
        data.subrange(WORD as int, WORD + WORD * k) == heads(parts, k),
    decreases k,
{
    if k == 0 {
        assert(data.subrange(WORD as int, WORD + WORD * k) =~= heads(parts, k));
    } else {
        lemma_heads_from_words(data, parts, (k - 1) as nat);
        lemma_heads_len(parts, (k - 1) as nat);
        assert(head_word(data, k - 1) == size_word(part_offset(parts, (k - 1) as nat)));
        assert(data.subrange(WORD as int, WORD + WORD * k) =~= data.subrange(
            WORD as int,
            WORD + WORD * (k - 1),
        ) + head_word(data, k - 1));
    }
}

/// A payload whose count word, offset words and tail are those of `parts` is
/// the encoding of `parts`.
pub proof fn lemma_array_encoding_from_parts(data: Seq<u8>, parts: Seq<Seq<u8>>)
    requires
        data.len() == WORD + WORD * parts.len() + concat_all(parts).len(),
        data.subrange(0, WORD as int) == size_word(parts.len()),
        forall|j: int|
            0 <= j < parts.len() ==> #[trigger] head_word(data, j) == size_word(
                part_offset(parts, j as nat),
            ),
        data.subrange(WORD + WORD * parts.len(), data.len() as int) == concat_all(parts),
    ensures
        array_encoding(parts) == data,
{
    lemma_heads_from_words(data, parts, parts.len());
    lemma_heads_len(parts, parts.len());
    lemma_be_seq_len(parts.len(), WORD as nat);
    assert(data =~= data.subrange(0, WORD as int) + data.subrange(
        WORD as int,
        WORD + WORD * parts.len(),
    ) + data.subrange(WORD + WORD * parts.len(), data.len() as int));
}

/// What the count word of an encoded array tells a reader.
pub proof fn lemma_array_encoding_count(parts: Seq<Seq<u8>>, data: Seq<u8>)
    requires
        array_encoding(parts) == data,
        data.len() <= usize::MAX,
    ensures
        data.len() == WORD + WORD * parts.len() + concat_all(parts).len(),
        data.subrange(0, WORD as int) == size_word(parts.len()),
        be_nat(data.subrange(0, WORD as int)) == parts.len(),
{
    lemma_array_encoding_len(parts);
    lemma_pow256_widths();
    lemma_size_word(parts.len());
}

/// What the `j`-th offset word of an encoded array tells a reader.
pub proof fn lemma_array_encoding_read(parts: Seq<Seq<u8>>, data: Seq<u8>, j: nat)
    requires
        array_encoding(parts) == data,
        data.len() <= usize::MAX,
        j < parts.len(),
    ensures
        head_word(data, j as int) == size_word(part_offset(parts, j)),
        be_nat(head_word(data, j as int)) == part_offset(parts, j),
        part_offset(parts, j) <= part_offset(parts, j + 1),
        WORD + part_offset(parts, j + 1) <= data.len(),
        data.subrange(WORD + part_offset(parts, j), WORD + part_offset(parts, j + 1))
            == parts[j as int],
{
    lemma_array_encoding_part(parts, j);
    lemma_prefix_len_step(parts, j);
    lemma_pow256_widths();
    lemma_size_word(part_offset(parts, j));
}

/// An array is encoded in one way only.
pub proof fn lemma_array_encoding_injective(a: Seq<Seq<u8>>, b: Seq<Seq<u8>>)
    requires
        array_encoding(a) == array_encoding(b),
        array_encoding(a).len() <= usize::MAX,
    ensures
        a == b,
{
    let data = array_encoding(a);
    lemma_array_encoding_count(a, data);
    lemma_array_encoding_count(b, data);
    assert(a.len() == b.len());
    assert forall|j: int| 0 <= j < a.len() implies a[j] == b[j] by {
        lemma_array_encoding_read(a, data, j as nat);
        lemma_array_encoding_read(b, data, j as nat);
        if j + 1 < a.len() {
            lemma_array_encoding_read(a, data, (j + 1) as nat);
            lemma_array_encoding_read(b, data, (j + 1) as nat);
        } else {
            lemma_prefix_len_step(a, j as nat);
            lemma_prefix_len_step(b, j as nat);
        }
    }
    assert(a =~= b);
}

/// Appends the encoding of the array whose elements are encoded as `parts`.
pub fn push_array_encoding(out: &mut Vec<u8>, parts: &Vec<Vec<u8>>)
    ensures
        final(out)@ == old(out)@ + array_encoding(views(parts@)),
{
    let ghost all = views(parts@);
    let count: usize = parts.len();
    let mut tails: Vec<u8> = Vec::new();
    let mut starts: Vec<usize> = Vec::new();
    let mut i: usize = 0;
    assert(all.take(0) =~= Seq::<Seq<u8>>::empty());
    while i < count
        invariant
            i <= count == parts.len(),
            all == views(parts@),
            starts@.len() == i,
            tails@ == concat_all(all.take(i as int)),
            forall|j: int| 0 <= j < i ==> starts@[j] == prefix_len(all, j as nat),
        decreases count - i,
    {
        starts.push(tails.len());
        push_bytes(&mut tails, parts[i].as_slice());
        proof {
            lemma_prefix_len_step(all, i as nat);
            assert(all.take(i + 1).drop_last() =~= all.take(i as int));
            assert(all.take(i + 1).last() == parts@[i as int]@);
        }
        i = i + 1;
    }
    push_word(out, count as u128);
    let mut k: usize = 0;
    while k < count
        invariant
            k <= count == parts.len(),
            all == views(parts@),
            starts@.len() == count,
            forall|j: int| 0 <= j < count ==> starts@[j] == prefix_len(all, j as nat),
            out@ == old(out)@ + size_word(count as nat) + heads(all, k as nat),
        decreases count - k,
    {
        push_word(out, (WORD as u128) * (count as u128) + starts[k] as u128);
        k = k + 1;
        assert(out@ =~= old(out)@ + size_word(count as nat) + heads(all, k as nat));
    }
    push_bytes(out, tails.as_slice());
    assert(all.take(count as int) =~= all);
    assert(out@ =~= old(out)@ + array_encoding(all));
}

/// The element count that the first word of `data` spells.
pub open spec fn array_count(data: Seq<u8>) -> nat {
    be_nat(data.subrange(0, WORD as int))
}

/// Where the `j`-th element of `data` starts, counted from the first offset
/// word: what the `j`-th offset word spells, or, past the last element, the
/// end of `data`.
pub open spec fn part_bound(data: Seq<u8>, j: int) -> nat {
    if j < array_count(data) {
        be_nat(head_word(data, j))
    } else {
        (data.len() - WORD) as nat
    }
}

/// Whether the `j`-th element of `data` ends where the next one starts, at or
/// after its own start and within `data`.
pub open spec fn part_fits(data: Seq<u8>, j: int) -> bool {
    part_bound(data, j) <= part_bound(data, j + 1) <= data.len() - WORD
}

/// Whether `data` has the shape of an encoded array: a count word, as many
/// offset words, the first element right behind them, and each element right
/// behind the one before it, up to the end of `data`.
pub open spec fn array_shaped(data: Seq<u8>) -> bool {
    &&& WORD <= data.len()
    &&& WORD + WORD * array_count(data) <= data.len()
    &&& part_bound(data, 0) == WORD * array_count(data)
    &&& forall|j: int| 0 <= j < array_count(data) ==> #[trigger] part_fits(data, j)
}

/// The bytes of the `j`-th element of `data`.
pub open spec fn array_part(data: Seq<u8>, j: int) -> Seq<u8> {
    data.subrange(WORD + part_bound(data, j), WORD + part_bound(data, j + 1))
}

/// The elements of `data`, in order.
pub open spec fn array_parts(data: Seq<u8>) -> Seq<Seq<u8>> {
    Seq::new(array_count(data), |j: int| array_part(data, j))
}

/// Splits a payload of the shape of an encoded array into its elements.
pub fn split_array(data: &[u8]) -> (parts: Option<Vec<Vec<u8>>>)
    ensures
        match parts {
            Some(p) => array_shaped(data@) && views(p@) == array_parts(data@),
            None => !array_shaped(data@),
        },
{
    assert(data@.len() == data.len());
    if data.len() < WORD {
        return None;
    }
    let room: usize = data.len() - WORD;
    proof {
        lemma_pow256_widths();
    }
    let count: usize = match read_size(slice_subrange(data, 0, WORD)) {
        Some(c) => c,
        None => {
            return None;
        },
    };
    proof {
        lemma_size_word(count as nat);
    }
    if count > room / WORD {
        return None;
    }
    let mut parts: Vec<Vec<u8>> = Vec::new();
    let mut cursor: usize = count * WORD;
    if count == 0 {
        if room != 0 {
            return None;
        }
        assert(views(parts@) =~= array_parts(data@));
        return Some(parts);
    }
    assert(head_word(data@, 0) == data@.subrange(WORD as int, WORD + WORD));
    match read_size(slice_subrange(data, WORD, WORD + WORD)) {
        Some(first) => {
            proof {
                lemma_size_word(first as nat);
            }
            if first != cursor {
                return None;
            }
        },
        None => {
            return None;
        },
    }
    let mut i: usize = 0;
    while i < count
        invariant
            i <= count,
            0 < count == array_count(data@),
            data@.len() == data.len(),
            room == data.len() - WORD,
            WORD + WORD * count <= data.len(),
            part_bound(data@, 0) == WORD * count,
            cursor == part_bound(data@, i as int),
            cursor <= room,
            parts@.len() == i,
            forall|j: int| 0 <= j < i ==> #[trigger] part_fits(data@, j),
            forall|j: int| 0 <= j < i ==> parts@[j]@ == array_part(data@, j),
        decreases count - i,
    {
        let end: usize = if i + 1 < count {
            let next = slice_subrange(data, WORD + WORD * (i + 1), WORD + WORD * (i + 1) + WORD);
            assert(next@ == head_word(data@, i + 1));
            match read_size(next) {
                Some(e) => {
                    proof {
                        lemma_pow256_widths();
                        lemma_size_word(e as nat);
                    }
                    e
                },
                None => {
                    assert(!part_fits(data@, i as int));
                    return None;
                },
            }
        } else {
            room
        };
        assert(end == part_bound(data@, i + 1));
        if end < cursor || end > room {
            assert(!part_fits(data@, i as int));
            return None;
        }
        assert(part_fits(data@, i as int));
        let part = slice_to_vec(slice_subrange(data, WORD + cursor, WORD + end));
        parts.push(part);
        cursor = end;
        i = i + 1;
    }
    assert(views(parts@) =~= array_parts(data@));
    Some(parts)
}

/// In a payload of the shape of an encoded array, the elements before the
/// `k`-th fill the bytes between the offset words and the `k`-th bound.
pub proof fn lemma_shaped_prefix(data: Seq<u8>, k: nat)
    requires
        array_shaped(data),
        k <= array_count(data),
    ensures
        WORD * array_count(data) <= part_bound(data, k as int) <= data.len() - WORD,
        concat_all(array_parts(data).take(k as int)) == data.subrange(
            WORD + WORD * array_count(data),
            WORD + part_bound(data, k as int),
        ),
    decreases k,
{
    let parts = array_parts(data);
    let start = WORD + WORD * array_count(data);
    if k == 0 {
        assert(parts.take(0) =~= Seq::<Seq<u8>>::empty());
        assert(concat_all(parts.take(0)) =~= data.subrange(start, WORD + part_bound(data, 0)));
    } else {
        lemma_shaped_prefix(data, (k - 1) as nat);
        assert(part_fits(data, k - 1));
        assert(parts.take(k as int).drop_last() =~= parts.take(k - 1));
        assert(parts.take(k as int).last() == array_part(data, k - 1));
        assert(concat_all(parts.take(k as int)) =~= data.subrange(
            start,
            WORD + part_bound(data, k as int),
        ));
    }
}

/// In a payload of the shape of an encoded array, each offset word spells the
/// offset that its element has among the elements read.
pub proof fn lemma_shaped_head(data: Seq<u8>, j: nat)
    requires
        array_shaped(data),
        j < array_count(data),
    ensures
        head_word(data, j as int) == size_word(part_offset(array_parts(data), j)),
{
    let word = head_word(data, j as int);
    lemma_shaped_prefix(data, j);
    lemma_shaped_prefix(data, array_count(data));
    assert(word.len() == WORD);
    crate::word::lemma_be_seq_of_be_nat(word);
    assert(prefix_len(array_parts(data), j) == part_bound(data, j as int) - WORD * array_count(
        data,
    ));
    assert(part_offset(array_parts(data), j) == be_nat(word));
}

/// A payload of the shape of an encoded array is the encoding of its
/// elements.
pub proof fn lemma_shaped_is_encoding(data: Seq<u8>)
    requires
        array_shaped(data),
    ensures
        array_encoding(array_parts(data)) == data,
{
    let parts = array_parts(data);
    let count = array_count(data);
    let word = data.subrange(0, WORD as int);
    assert(parts.len() == count);
    assert(concat_all(parts) == data.subrange(WORD + WORD * count, data.len() as int)) by {
        lemma_shaped_prefix(data, count);
        assert(parts.take(count as int) =~= parts);
    }
    assert(word == size_word(count)) by {
        crate::word::lemma_be_seq_of_be_nat(word);
    }
    assert forall|j: int| 0 <= j < parts.len() implies #[trigger] head_word(data, j) == size_word(
        part_offset(parts, j as nat),
    ) by {
        lemma_shaped_head(data, j as nat);
    }
    lemma_array_encoding_from_parts(data, parts);
}

/// The encoding of an array has the shape of one, and its elements are those
/// that were encoded.
pub proof fn lemma_encoding_is_shaped(parts: Seq<Seq<u8>>, data: Seq<u8>)
    requires
        array_encoding(parts) == data,
        data.len() <= usize::MAX,
    ensures
        array_shaped(data),
        array_parts(data) == parts,
{
    let count = parts.len();
    lemma_array_encoding_count(parts, data);
    assert forall|j: int| 0 <= j <= count implies part_bound(data, j) == part_offset(
        parts,
        j as nat,
    ) by {
        if j < count {
            lemma_array_encoding_read(parts, data, j as nat);
        } else {
            assert(parts.take(count as int) =~= parts);
        }
    }
    assert(parts.take(0) =~= Seq::<Seq<u8>>::empty());
    assert forall|j: int| 0 <= j < array_count(data) implies #[trigger] part_fits(data, j) by {
        lemma_array_encoding_read(parts, data, j as nat);
    }
    assert forall|j: int| 0 <= j < count implies array_parts(data)[j] == parts[j] by {
        lemma_array_encoding_read(parts, data, j as nat);
    }
    assert(array_parts(data) =~= parts);
}

/// Splits an encoded array into the encodings of its elements. Fails exactly
/// when `data` is the encoding of no array: when it is cut short, when an
/// offset does not point right behind the element before it, or when bytes
/// are left over.
pub fn read_array_encoding(data: &[u8]) -> (parts: Option<Vec<Vec<u8>>>)
    ensures
        match parts {
            Some(p) => array_encoding(views(p@)) == data@,
            None => forall|ps: Seq<Seq<u8>>| array_encoding(ps) != data@,
        },
{
    assert(data@.len() == data.len());
    let parts = split_array(data);
    proof {
        if array_shaped(data@) {
            lemma_shaped_is_encoding(data@);
        } else {
            assert forall|ps: Seq<Seq<u8>>| array_encoding(ps) != data@ by {
                if array_encoding(ps) == data@ {
                    lemma_encoding_is_shaped(ps, data@);
                }
            }
        }
    }
    parts
}

} // verus!
