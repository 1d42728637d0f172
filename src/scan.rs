use vstd::prelude::*;

verus! {

/// Length of the marker that opens an image record.
pub const MARKER_LEN: usize = 12;

/// Byte that ends the hex text of an image record (carriage return).
pub const TERMINATOR: u8 = 13;

/// The marker `TJPEGImage\r\n` that opens an image record.
pub open spec fn marker() -> Seq<u8> {
    seq![84u8, 74, 80, 69, 71, 73, 109, 97, 103, 101, 13, 10]
}

/// The marker occupies `buf[i .. i + 12]` in full.
pub open spec fn marker_at(buf: Seq<u8>, i: int) -> bool {
    0 <= i && i + 12 <= buf.len() && buf.subrange(i, i + 12) == marker()
}

/// Position of the first terminator at or after `from`, if any.
pub open spec fn first_terminator(buf: Seq<u8>, from: int) -> Option<int>
    decreases buf.len() - from,
{
    if from < 0 || from >= buf.len() {
        None
    } else if buf[from] == 13 {
        Some(from)
    } else {
        first_terminator(buf, from + 1)
    }
}

/// The hex text of the record whose marker starts at `i`: the bytes between
/// the marker and the next terminator. None where no marker starts at `i`, or
/// where no terminator follows it.
pub open spec fn record_at(buf: Seq<u8>, i: int) -> Option<Seq<u8>> {
    if marker_at(buf, i) {
        match first_terminator(buf, i + 12) {
            Some(j) => Some(buf.subrange(i + 12, j)),
            None => None,
        }
    } else {
        None
    }
}

/// Hex texts of the records whose markers start before `n`, left to right.
pub open spec fn records_before(buf: Seq<u8>, n: int) -> Seq<Seq<u8>>
    decreases n,
{
    if n <= 0 {
        Seq::empty()
    } else {
        let prev = records_before(buf, n - 1);
        match record_at(buf, n - 1) {
            Some(t) => prev.push(t),
            None => prev,
        }
    }
}

/// Hex texts of all records of the buffer, in scan order.
pub open spec fn records(buf: Seq<u8>) -> Seq<Seq<u8>> {
    records_before(buf, buf.len() as int)
}

/// The `k`-th byte of the marker.
fn marker_byte(k: usize) -> (b: u8)
    requires
        k < 12,
    ensures
        b == marker()[k as int],
{
    if k == 0 {
        84
    } else if k == 1 {
        74
    } else if k == 2 {
        80
    } else if k == 3 {
        69
    } else if k == 4 {
        71
    } else if k == 5 {
        73
    } else if k == 6 {
        109
    } else if k == 7 {
        97
    } else if k == 8 {
        103
    } else if k == 9 {
        101
    } else if k == 10 {
        13
    } else {
        10
    }
}

/// Whether a whole marker starts at `i`; false where fewer than twelve bytes
/// remain.
pub fn has_marker_at(input: &[u8], i: usize) -> (r: bool)
    ensures
        r == marker_at(input@, i as int),
{
    if i > input.len() || input.len() - i < MARKER_LEN {
        return false;
    }
    let mut k: usize = 0;
    while k < MARKER_LEN
        invariant
            i + 12 <= input.len(),
            k <= 12,
            forall|m: int| 0 <= m < k ==> input@[i + m] == marker()[m],
        decreases 12 - k,
    {
        if input[i + k] != marker_byte(k) {
            assert(input@.subrange(i as int, i + 12)[k as int] != marker()[k as int]);
            return false;
        }
        k = k + 1;
    }
    assert(input@.subrange(i as int, i + 12) =~= marker());
    true
}

/// Position of the first terminator at or after `from`.
pub fn find_terminator(input: &[u8], from: usize) -> (r: Option<usize>)
    ensures
        match r {
            Some(j) => from <= j < input@.len() && input@[j as int] == TERMINATOR
                && first_terminator(input@, from as int) == Some(j as int),
            None => first_terminator(input@, from as int) is None,
        },
{
    let mut j: usize = from;
    while j < input.len()
        invariant
            from <= j,
            first_terminator(input@, from as int) == first_terminator(input@, j as int),
        decreases input@.len() - j,
    {
        if input[j] == TERMINATOR {
            return Some(j);
        }
        j = j + 1;
    }
    None
}

} // verus!
