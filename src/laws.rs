use vstd::prelude::*;

use crate::extract::{decoded_count, extraction, outcome_of, outcomes, Extracted};
use crate::hexcodec::{hex_decoded, hex_encoded, hex_valid, is_hex_digit, lemma_hex_round_trip};
use crate::naming::artifact_path_of;
use crate::scan::{first_terminator, marker, marker_at, record_at, records, records_before};

verus! {

/// How many of the outcomes are images, that is files to write.
pub open spec fn image_count(s: Seq<Extracted>) -> nat
    decreases s.len(),
{
    if s.len() == 0 {
        0
    } else {
        image_count(s.drop_last()) + if s.last() is Image {
            1nat
        } else {
            0nat
        }
    }
}

proof fn lemma_outcomes_count(texts: Seq<Seq<u8>>, title: Seq<char>, out_folder: Seq<char>)
    ensures
        outcomes(texts, title, out_folder).len() == texts.len(),
        image_count(outcomes(texts, title, out_folder)) == decoded_count(texts),
        (forall|k: int| 0 <= k < texts.len() ==> hex_valid(#[trigger] texts[k])) ==> decoded_count(
            texts,
        ) == texts.len(),
    decreases texts.len(),
{
    if texts.len() > 0 {
        let prev = texts.drop_last();
        lemma_outcomes_count(prev, title, out_folder);
        let s = outcomes(texts, title, out_folder);
        assert(s.drop_last() =~= outcomes(prev, title, out_folder));
        if forall|k: int| 0 <= k < texts.len() ==> hex_valid(#[trigger] texts[k]) {
            assert forall|k: int| 0 <= k < prev.len() implies hex_valid(#[trigger] prev[k]) by {
                assert(prev[k] == texts[k]);
            }
            assert(hex_valid(texts[texts.len() - 1]));
        }
    }
}

/// A whole marker starts at `i` and a carriage return follows it.
pub open spec fn terminated_marker_at(buf: Seq<u8>, i: int) -> bool {
    marker_at(buf, i) && first_terminator(buf, i + 12) is Some
}

/// How many positions below `n` start a marker that a carriage return follows.
pub open spec fn terminated_markers_before(buf: Seq<u8>, n: int) -> nat
    decreases n,
{
    if n <= 0 {
        0
    } else {
        terminated_markers_before(buf, n - 1) + if terminated_marker_at(buf, n - 1) {
            1nat
        } else {
            0nat
        }
    }
}

/// The hex text of every terminated marker of the buffer is valid hex.
pub open spec fn all_texts_valid(buf: Seq<u8>) -> bool {
    forall|i: int| #[trigger] record_at(buf, i) is Some ==> hex_valid(record_at(buf, i)->0)
}

proof fn lemma_records_are_terminated_markers(buf: Seq<u8>, n: int)
    ensures
        records_before(buf, n).len() == terminated_markers_before(buf, n),
        all_texts_valid(buf) ==> forall|k: int|
            0 <= k < records_before(buf, n).len() ==> hex_valid(
                #[trigger] records_before(buf, n)[k],
            ),
    decreases n,
{
    if n > 0 {
        lemma_records_are_terminated_markers(buf, n - 1);
        if all_texts_valid(buf) {
            let prev = records_before(buf, n - 1);
            let cur = records_before(buf, n);
            assert forall|k: int| 0 <= k < cur.len() implies hex_valid(#[trigger] cur[k]) by {
                if k < prev.len() {
                    if record_at(buf, n - 1) is Some {
                        assert(cur[k] == prev[k]);
                    }
                } else {
                    assert(record_at(buf, n - 1) is Some);
                }
            }
        }
    }
}

/// Every marker that a carriage return follows gives exactly one outcome,
/// and a marker with none gives nothing. One file comes out per record whose
/// text decodes. So where every record's text is valid hex, there are as many
/// files as markers that a carriage return follows, `n` say, and they are the
/// row's images 1 to `n`, in that order, at the paths those numbers give.
pub proof fn lemma_one_file_per_terminated_marker(
    buf: Seq<u8>,
    title: Seq<char>,
    out_folder: Seq<char>,
)
    ensures
        extraction(buf, title, out_folder).len() == terminated_markers_before(
            buf,
            buf.len() as int,
        ),
        image_count(extraction(buf, title, out_folder)) == decoded_count(records(buf)),
        forall|i: int|
            marker_at(buf, i) && first_terminator(buf, i + 12) is None ==> #[trigger] record_at(
                buf,
                i,
            ) is None,
        all_texts_valid(buf) ==> image_count(extraction(buf, title, out_folder))
            == terminated_markers_before(buf, buf.len() as int),
        all_texts_valid(buf) ==> forall|k: int|
            0 <= k < extraction(buf, title, out_folder).len() ==> (#[trigger] extraction(
                buf,
                title,
                out_folder,
            )[k]) == (Extracted::Image {
                index: (k + 1) as nat,
                path: artifact_path_of(out_folder, title, (k + 1) as nat),
                data: hex_decoded(records(buf)[k]),
            }),
{
    let texts = records(buf);
    lemma_records_are_terminated_markers(buf, buf.len() as int);
    lemma_outcomes_count(texts, title, out_folder);
    if all_texts_valid(buf) {
        assert forall|k: int| 0 <= k < extraction(buf, title, out_folder).len() implies (
        #[trigger] extraction(buf, title, out_folder)[k]) == (Extracted::Image {
            index: (k + 1) as nat,
            path: artifact_path_of(out_folder, title, (k + 1) as nat),
            data: hex_decoded(texts[k]),
        }) by {
            lemma_outcome_at(texts, title, out_folder, k);
            let before = texts.take(k);
            assert forall|m: int| 0 <= m < before.len() implies hex_valid(#[trigger] before[m]) by {
                assert(before[m] == texts[m]);
            }
            lemma_outcomes_count(before, title, out_folder);
            assert(hex_valid(texts[k]));
        }
    }
}

proof fn lemma_outcomes_numbering(texts: Seq<Seq<u8>>, title: Seq<char>, out_folder: Seq<char>)
    ensures
        forall|k: int|
            0 <= k < texts.len() && (#[trigger] outcomes(texts, title, out_folder)[k]) is Image
                ==> outcomes(texts, title, out_folder)[k]->Image_index == image_count(
                outcomes(texts, title, out_folder).take(k),
            ) + 1 && outcomes(texts, title, out_folder)[k]->Image_path == artifact_path_of(
                out_folder,
                title,
                outcomes(texts, title, out_folder)[k]->Image_index,
            ),
    decreases texts.len(),
{
    if texts.len() > 0 {
        let prev = texts.drop_last();
        lemma_outcomes_numbering(prev, title, out_folder);
        lemma_outcomes_count(prev, title, out_folder);
        let s = outcomes(texts, title, out_folder);
        let ps = outcomes(prev, title, out_folder);
        assert forall|k: int| 0 <= k < texts.len() && (#[trigger] s[k]) is Image implies s[k]->Image_index
            == image_count(s.take(k)) + 1 && s[k]->Image_path == artifact_path_of(
            out_folder,
            title,
            s[k]->Image_index,
        ) by {
            if k < prev.len() {
                assert(s[k] == ps[k]);
                assert(s.take(k) =~= ps.take(k));
            } else {
                assert(s.take(k) =~= ps);
            }
        }
    }
}

/// A row's images are numbered 1, 2, 3, ... in scan order, by a count that
/// belongs to the row alone: the image at place `k` has number one more than
/// the images before it in the same row, and its path is made of the row's
/// own title and that number.
pub proof fn lemma_row_numbering(buf: Seq<u8>, title: Seq<char>, out_folder: Seq<char>)
    ensures
        forall|k: int|
            0 <= k < extraction(buf, title, out_folder).len() && (#[trigger] extraction(
                buf,
                title,
                out_folder,
            )[k]) is Image ==> extraction(buf, title, out_folder)[k]->Image_index == image_count(
                extraction(buf, title, out_folder).take(k),
            ) + 1 && extraction(buf, title, out_folder)[k]->Image_path == artifact_path_of(
                out_folder,
                title,
                extraction(buf, title, out_folder)[k]->Image_index,
            ),
{
    lemma_outcomes_numbering(records(buf), title, out_folder);
    lemma_outcomes_count(records(buf), title, out_folder);
}

/// No whole marker lies inside `s`.
pub open spec fn marker_free(s: Seq<u8>) -> bool {
    forall|i: int| 0 <= i && i + 12 <= s.len() ==> #[trigger] s.subrange(i, i + 12) != marker()
}

/// `prefix`, the marker, the hex text `h`, a carriage return and `suffix`.
pub open spec fn framed(prefix: Seq<u8>, h: Seq<u8>, suffix: Seq<u8>) -> Seq<u8> {
    prefix + marker() + h + seq![13u8] + suffix
}

proof fn lemma_framed_bytes(prefix: Seq<u8>, h: Seq<u8>, suffix: Seq<u8>)
    ensures
        ({
            let buf = framed(prefix, h, suffix);
            let p = prefix.len() as int;
            let q = p + 12 + h.len();
            &&& buf.len() == q + 1 + suffix.len()
            &&& forall|k: int| 0 <= k < p ==> buf[k] == #[trigger] prefix[k]
            &&& forall|k: int| 0 <= k < 12 ==> buf[p + k] == #[trigger] marker()[k]
            &&& forall|k: int| 0 <= k < h.len() ==> buf[p + 12 + k] == #[trigger] h[k]
            &&& buf[q] == 13u8
            &&& forall|k: int| 0 <= k < suffix.len() ==> buf[q + 1 + k] == #[trigger] suffix[k]
        }),
{
    let buf = framed(prefix, h, suffix);
    let p = prefix.len() as int;
    let q = p + 12 + h.len();
    let a = prefix + marker();
    let b = a + h;
    let c = b + seq![13u8];
    assert(buf == c + suffix);
    assert forall|k: int| 0 <= k < p implies buf[k] == prefix[k] by {
        assert(buf[k] == c[k] && c[k] == b[k] && b[k] == a[k]);
    }
    assert forall|k: int| 0 <= k < 12 implies buf[p + k] == marker()[k] by {
        assert(buf[p + k] == c[p + k] && c[p + k] == b[p + k] && b[p + k] == a[p + k]);
    }
    assert forall|k: int| 0 <= k < h.len() implies buf[p + 12 + k] == h[k] by {
        assert(buf[p + 12 + k] == c[p + 12 + k] && c[p + 12 + k] == b[p + 12 + k]);
    }
    assert(buf[q] == c[q]);
}

proof fn lemma_framed_terminator(prefix: Seq<u8>, h: Seq<u8>, suffix: Seq<u8>, j: int)
    requires
        prefix.len() + 12 <= j <= prefix.len() + 12 + h.len(),
        forall|k: int| 0 <= k < h.len() ==> #[trigger] h[k] != 13u8,
    ensures
        first_terminator(framed(prefix, h, suffix), j) == Some(prefix.len() + 12 + h.len() as int),
    decreases prefix.len() + 12 + h.len() - j,
{
    lemma_framed_bytes(prefix, h, suffix);
    let p = prefix.len() as int;
    if j < p + 12 + h.len() {
        assert(framed(prefix, h, suffix)[p + 12 + (j - p - 12)] == h[j - p - 12]);
        lemma_framed_terminator(prefix, h, suffix, j + 1);
    }
}

proof fn lemma_framed_no_other_marker(prefix: Seq<u8>, h: Seq<u8>, suffix: Seq<u8>, i: int)
    requires
        marker_free(prefix),
        marker_free(suffix),
        forall|k: int| 0 <= k < h.len() ==> #[trigger] h[k] != 84u8,
        i != prefix.len(),
    ensures
        !marker_at(framed(prefix, h, suffix), i),
{
    lemma_framed_bytes(prefix, h, suffix);
    let buf = framed(prefix, h, suffix);
    let p = prefix.len() as int;
    let q = p + 12 + h.len();
    let m = marker();
    assert(m[0] == 84u8);
    assert(forall|k: int| 1 <= k < 12 ==> #[trigger] m[k] != 84u8);
    if marker_at(buf, i) {
        let w = buf.subrange(i, i + 12);
        assert(w == m);
        if i + 12 <= p {
            assert(w =~= prefix.subrange(i, i + 12));
        } else if i < p {
            assert(buf[p + 0] == m[0]);
            assert(w[p - i] == buf[p]);
        } else if i < p + 12 {
            assert(buf[p + (i - p)] == m[i - p]);
            assert(w[0] == buf[i]);
        } else if i < q {
            assert(buf[p + 12 + (i - p - 12)] == h[i - p - 12]);
            assert(w[0] == buf[i]);
        } else if i == q {
            assert(w[0] == buf[q]);
        } else {
            let t = suffix.subrange(i - q - 1, i - q - 1 + 12);
            assert forall|k: int| 0 <= k < 12 implies #[trigger] w[k] == t[k] by {
                assert(buf[q + 1 + (i - q - 1 + k)] == suffix[i - q - 1 + k]);
                assert(w[k] == buf[i + k]);
            }
            assert(w =~= t);
        }
    }
}

proof fn lemma_framed_records(prefix: Seq<u8>, h: Seq<u8>, suffix: Seq<u8>, n: int)
    requires
        marker_free(prefix),
        marker_free(suffix),
        forall|k: int| 0 <= k < h.len() ==> #[trigger] h[k] != 84u8 && h[k] != 13u8,
        n <= framed(prefix, h, suffix).len(),
    ensures
        records_before(framed(prefix, h, suffix), n) == if n <= prefix.len() {
            Seq::<Seq<u8>>::empty()
        } else {
            seq![h]
        },
    decreases n,
{
    let buf = framed(prefix, h, suffix);
    let p = prefix.len() as int;
    if n > 0 {
        lemma_framed_records(prefix, h, suffix, n - 1);
        if n - 1 == p {
            lemma_framed_bytes(prefix, h, suffix);
            assert(buf.subrange(p, p + 12) =~= marker());
            lemma_framed_terminator(prefix, h, suffix, p + 12);
            assert(buf.subrange(p + 12, p + 12 + h.len()) =~= h);
            assert(record_at(buf, p) == Some(h));
            assert(records_before(buf, n) =~= seq![h]);
        } else {
            lemma_framed_no_other_marker(prefix, h, suffix, n - 1);
        }
    }
}

/// Valid hex text, in either letter case, put between the marker and a
/// carriage return in a buffer whose other parts hold no marker, extracts to
/// a single image, the row's first, whose content is the bytes the text
/// stands for.
pub proof fn lemma_embedded_hex_round_trip(
    prefix: Seq<u8>,
    h: Seq<u8>,
    suffix: Seq<u8>,
    title: Seq<char>,
    out_folder: Seq<char>,
)
    requires
        marker_free(prefix),
        marker_free(suffix),
        hex_valid(h),
    ensures
        extraction(framed(prefix, h, suffix), title, out_folder) == seq![
            Extracted::Image {
                index: 1,
                path: artifact_path_of(out_folder, title, 1),
                data: hex_decoded(h),
            },
        ],
{
    assert forall|k: int| 0 <= k < h.len() implies #[trigger] h[k] != 84u8 && h[k] != 13u8 by {
        assert(is_hex_digit(h[k]));
    }
    let buf = framed(prefix, h, suffix);
    lemma_framed_records(prefix, h, suffix, buf.len() as int);
    let texts = records(buf);
    assert(texts == seq![h]);
    assert(texts.drop_last() =~= Seq::<Seq<u8>>::empty());
    assert(texts.last() == h);
    assert(decoded_count(texts.drop_last()) == 0);
    assert(outcomes(texts.drop_last(), title, out_folder) =~= Seq::<Extracted>::empty());
    assert(outcomes(texts, title, out_folder) == outcomes(texts.drop_last(), title, out_folder).push(
        outcome_of(texts.last(), decoded_count(texts.drop_last()) + 1, title, out_folder),
    ));
    assert(extraction(buf, title, out_folder) =~= seq![outcome_of(h, 1, title, out_folder)]);
}

/// The hex encoding of any bytes `b`, put between the marker and a carriage
/// return in a buffer whose other parts hold no marker, extracts to a single
/// image, the row's first, whose content is `b` again.
pub proof fn lemma_embedded_image_round_trip(
    prefix: Seq<u8>,
    b: Seq<u8>,
    suffix: Seq<u8>,
    title: Seq<char>,
    out_folder: Seq<char>,
)
    requires
        marker_free(prefix),
        marker_free(suffix),
    ensures
        extraction(framed(prefix, hex_encoded(b), suffix), title, out_folder) == seq![
            Extracted::Image { index: 1, path: artifact_path_of(out_folder, title, 1), data: b },
        ],
{
    lemma_hex_round_trip(b);
    lemma_embedded_hex_round_trip(prefix, hex_encoded(b), suffix, title, out_folder);
}

proof fn lemma_terminator_after(buf: Seq<u8>, j: int, q: int)
    requires
        0 <= j <= q < buf.len(),
        buf[q] == 13u8,
        forall|k: int| j <= k < q ==> #[trigger] buf[k] != 13u8,
    ensures
        first_terminator(buf, j) == Some(q),
    decreases q - j,
{
    if j < q {
        lemma_terminator_after(buf, j + 1, q);
    }
}

proof fn lemma_record_listed(buf: Seq<u8>, p: int, n: int) -> (k: int)
    requires
        0 <= p < n,
        record_at(buf, p) is Some,
    ensures
        0 <= k < records_before(buf, n).len(),
        records_before(buf, n)[k] == record_at(buf, p)->0,
    decreases n,
{
    if n - 1 == p {
        records_before(buf, n).len() - 1
    } else {
        lemma_record_listed(buf, p, n - 1)
    }
}

proof fn lemma_outcome_at(texts: Seq<Seq<u8>>, title: Seq<char>, out_folder: Seq<char>, k: int)
    requires
        0 <= k < texts.len(),
    ensures
        outcomes(texts, title, out_folder)[k] == outcome_of(
            texts[k],
            decoded_count(texts.take(k)) + 1,
            title,
            out_folder,
        ),
    decreases texts.len(),
{
    let prev = texts.drop_last();
    lemma_outcomes_count(prev, title, out_folder);
    if k < prev.len() {
        lemma_outcome_at(prev, title, out_folder, k);
        assert(prev.take(k) =~= texts.take(k));
    } else {
        assert(texts.take(k) =~= prev);
    }
}

/// Wherever the marker is followed by the hex encoding of some bytes `b`
/// and a carriage return, whatever else the buffer holds, extraction gives
/// an image whose content is `b`.
pub proof fn lemma_embedded_image_decodes(
    buf: Seq<u8>,
    p: int,
    b: Seq<u8>,
    title: Seq<char>,
    out_folder: Seq<char>,
)
    requires
        0 <= p,
        p + 12 + 2 * b.len() < buf.len(),
        buf.subrange(p, p + 12) == marker(),
        buf.subrange(p + 12, p + 12 + 2 * b.len()) == hex_encoded(b),
        buf[p + 12 + 2 * b.len()] == 13u8,
    ensures
        exists|k: int|
            0 <= k < extraction(buf, title, out_folder).len() && (#[trigger] extraction(
                buf,
                title,
                out_folder,
            )[k]) is Image && extraction(buf, title, out_folder)[k]->Image_data == b,
{
    let h = hex_encoded(b);
    let q = p + 12 + 2 * b.len();
    lemma_hex_round_trip(b);
    assert forall|k: int| p + 12 <= k < q implies #[trigger] buf[k] != 13u8 by {
        assert(buf[k] == buf.subrange(p + 12, q)[k - p - 12]);
        assert(is_hex_digit(h[k - p - 12]));
    }
    lemma_terminator_after(buf, p + 12, q);
    assert(record_at(buf, p) == Some(h));
    let texts = records(buf);
    let k = lemma_record_listed(buf, p, buf.len() as int);
    lemma_outcome_at(texts, title, out_folder, k);
    lemma_outcomes_count(texts, title, out_folder);
    assert(extraction(buf, title, out_folder)[k] is Image);
}

proof fn lemma_terminator_kept(b: Seq<u8>, x: Seq<u8>, from: int)
    requires
        0 <= from,
        first_terminator(b, from) is Some,
    ensures
        first_terminator(b + x, from) == first_terminator(b, from),
    decreases b.len() - from,
{
    if from < b.len() && b[from] != 13u8 {
        assert((b + x)[from] == b[from]);
        lemma_terminator_kept(b, x, from + 1);
    } else if from < b.len() {
        assert((b + x)[from] == b[from]);
    }
}

proof fn lemma_terminator_bounds(buf: Seq<u8>, from: int)
    ensures
        first_terminator(buf, from) is Some ==> from <= first_terminator(buf, from)->0 < buf.len(),
    decreases buf.len() - from,
{
    if 0 <= from < buf.len() && buf[from] != 13u8 {
        lemma_terminator_bounds(buf, from + 1);
    }
}

proof fn lemma_no_terminator_in_tail(buf: Seq<u8>, start: int, j: int)
    requires
        0 <= start <= j,
        forall|k: int| start <= k < buf.len() ==> #[trigger] buf[k] != 13u8,
    ensures
        first_terminator(buf, j) is None,
    decreases buf.len() - j,
{
    if j < buf.len() {
        lemma_no_terminator_in_tail(buf, start, j + 1);
    }
}

proof fn lemma_trailing_records(b: Seq<u8>, t: Seq<u8>, i: int)
    requires
        forall|m: int| #[trigger] marker_at(b, m) ==> first_terminator(b, m + 12) is Some,
        forall|k: int| 0 <= k < t.len() ==> #[trigger] t[k] != 13u8,
        0 <= i,
    ensures
        record_at(b + marker() + t, i) == if i < b.len() {
            record_at(b, i)
        } else {
            None::<Seq<u8>>
        },
{
    let a = b + marker();
    let buf = a + t;
    let n = b.len() as int;
    let m = marker();
    assert(m[0] == 84u8 && m[10] == 13u8);
    assert(forall|k: int| 1 <= k < 12 ==> #[trigger] m[k] != 84u8);
    assert forall|k: int| 0 <= k < n implies #[trigger] buf[k] == b[k] by {
        assert(buf[k] == a[k]);
    }
    assert forall|k: int| 0 <= k < 12 implies #[trigger] buf[n + k] == m[k] by {
        assert(buf[n + k] == a[n + k]);
    }
    assert forall|k: int| 0 <= k < t.len() implies #[trigger] buf[n + 12 + k] == t[k] by {}
    if i + 12 <= n {
        assert(buf.subrange(i, i + 12) =~= b.subrange(i, i + 12));
        if marker_at(b, i) {
            lemma_terminator_kept(b, m + t, i + 12);
            lemma_terminator_bounds(b, i + 12);
            assert(buf =~= b + (m + t));
            assert(buf.subrange(i + 12, first_terminator(b, i + 12)->0) =~= b.subrange(
                i + 12,
                first_terminator(b, i + 12)->0,
            ));
        }
    } else if i < n {
        if marker_at(buf, i) {
            assert(buf.subrange(i, i + 12)[n - i] == buf[n + 0]);
        }
    } else if i == n {
        assert forall|k: int| n + 12 <= k < buf.len() implies #[trigger] buf[k] != 13u8 by {
            assert(buf[n + 12 + (k - n - 12)] == t[k - n - 12]);
        }
        lemma_no_terminator_in_tail(buf, n + 12, n + 12);
    } else if i < n + 12 {
        if marker_at(buf, i) {
            assert(buf.subrange(i, i + 12)[0] == buf[n + (i - n)]);
        }
    } else {
        if marker_at(buf, i) {
            assert(buf.subrange(i, i + 12)[10] == buf[n + 12 + (i + 10 - n - 12)]);
        }
    }
}

proof fn lemma_trailing_records_before(b: Seq<u8>, t: Seq<u8>, k: int)
    requires
        forall|m: int| #[trigger] marker_at(b, m) ==> first_terminator(b, m + 12) is Some,
        forall|j: int| 0 <= j < t.len() ==> #[trigger] t[j] != 13u8,
    ensures
        records_before(b + marker() + t, k) == records_before(b, if k < b.len() {
            k
        } else {
            b.len() as int
        }),
    decreases k,
{
    if k > 0 {
        lemma_trailing_records_before(b, t, k - 1);
        lemma_trailing_records(b, t, k - 1);
    }
}

/// A marker with no carriage return after it, at the end of a buffer in
/// which every marker has one, changes nothing: the same outcomes, numbers
/// and paths as without it.
pub proof fn lemma_unterminated_trailing_marker_ignored(
    b: Seq<u8>,
    t: Seq<u8>,
    title: Seq<char>,
    out_folder: Seq<char>,
)
    requires
        forall|i: int| #[trigger] marker_at(b, i) ==> first_terminator(b, i + 12) is Some,
        forall|k: int| 0 <= k < t.len() ==> #[trigger] t[k] != 13u8,
    ensures
        extraction(b + marker() + t, title, out_folder) == extraction(b, title, out_folder),
{
    lemma_trailing_records_before(b, t, (b + marker() + t).len() as int);
}

} // verus!
