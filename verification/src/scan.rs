use vstd::prelude::*;

verus! {

/// An occurrence of the non-empty pattern `pat` in `buf` ends at index `j`.
pub open spec fn match_end_at(buf: Seq<u8>, pat: Seq<u8>, j: int) -> bool {
    &&& pat.len() > 0
    &&& pat.len() <= j + 1
    &&& j < buf.len()
    &&& buf.subrange(j + 1 - pat.len(), j + 1) == pat
}

/// No occurrence of `pat` in `buf` ends at an index in `[from, to)`.
pub open spec fn no_match_between(buf: Seq<u8>, pat: Seq<u8>, from: int, to: int) -> bool {
    forall|k: int| from <= k < to ==> !#[trigger] match_end_at(buf, pat, k)
}

/// `s` ends with the non-empty pattern `pat`.
pub open spec fn ends_with(s: Seq<u8>, pat: Seq<u8>) -> bool {
    &&& pat.len() > 0
    &&& pat.len() <= s.len()
    &&& s.subrange(s.len() - pat.len(), s.len() as int) == pat
}

proof fn lemma_ends_with_prefix(buf: Seq<u8>, pat: Seq<u8>, n: int)
    requires
        1 <= n <= buf.len(),
    ensures
        ends_with(buf.take(n), pat) == match_end_at(buf, pat, n - 1),
{
    if pat.len() > 0 && pat.len() <= n {
        assert(buf.take(n).subrange(n - pat.len(), n) =~= buf.subrange(n - pat.len(), n));
    }
}

/// A scan that found no occurrence ending before index `k` stays right when
/// more bytes arrive behind the buffer: every such occurrence lies in the
/// old part.
pub proof fn lemma_no_match_survives_append(buf: Seq<u8>, extra: Seq<u8>, pat: Seq<u8>, from: int, k: int)
    requires
        k <= buf.len(),
        no_match_between(buf, pat, from, k),
    ensures
        no_match_between(buf + extra, pat, from, k),
{
    assert forall|j: int| from <= j < k implies !#[trigger] match_end_at(buf + extra, pat, j) by {
        if match_end_at(buf + extra, pat, j) {
            assert((buf + extra).subrange(j + 1 - pat.len(), j + 1) =~= buf.subrange(
                j + 1 - pat.len(),
                j + 1,
            ));
            assert(match_end_at(buf, pat, j));
        }
    }
}

/// Two scans, one over `[0, from)` and the next over `[from, j)`, cover the
/// whole of `[0, j)`.
pub proof fn lemma_no_match_join(buf: Seq<u8>, pat: Seq<u8>, from: int, j: int)
    requires
        no_match_between(buf, pat, 0, from),
        no_match_between(buf, pat, from, j),
    ensures
        no_match_between(buf, pat, 0, j),
{
}

/// When the first occurrence of `pat` in `buf` ends at `j`, the bytes up to
/// `j` end with `pat` and no shorter prefix of them does: a receive up to a
/// delimiter hands out the shortest prefix of the stream that ends with it.
pub proof fn lemma_first_match_is_shortest(buf: Seq<u8>, pat: Seq<u8>, j: int)
    requires
        0 <= j,
        match_end_at(buf, pat, j),
        no_match_between(buf, pat, 0, j),
    ensures
        ends_with(buf.take(j + 1), pat),
        forall|n: int| 0 <= n <= j ==> !ends_with(#[trigger] buf.take(j + 1).take(n), pat),
{
    lemma_ends_with_prefix(buf, pat, j + 1);
    assert forall|n: int| 0 <= n <= j implies !ends_with(#[trigger] buf.take(j + 1).take(n), pat) by {
        assert(buf.take(j + 1).take(n) =~= buf.take(n));
        if n >= 1 {
            lemma_ends_with_prefix(buf, pat, n);
            assert(!match_end_at(buf, pat, n - 1));
        }
    }
}

/// The scans that came to nothing cover `[0, cuts[k])` of the stream: scan
/// `i` saw the first `cuts[i + 1]` bytes, started at `cuts[i]` and found no
/// occurrence ending in between.
proof fn lemma_pending_scans_cover(stream: Seq<u8>, pat: Seq<u8>, cuts: Seq<int>, k: int)
    requires
        cuts.len() >= 1,
        cuts[0] == 0,
        0 <= k < cuts.len(),
        forall|i: int| 0 <= i < cuts.len() - 1 ==> cuts[i] <= #[trigger] cuts[i + 1] <= stream.len(),
        forall|i: int|
            0 <= i < cuts.len() - 1 ==> no_match_between(
                #[trigger] stream.take(cuts[i + 1]),
                pat,
                cuts[i],
                cuts[i + 1],
            ),
    ensures
        no_match_between(stream, pat, 0, cuts[k]),
        0 <= cuts[k],
    decreases k,
{
    if k > 0 {
        lemma_pending_scans_cover(stream, pat, cuts, k - 1);
        let i = k - 1;
        let c = cuts[i + 1];
        assert(cuts[i] <= c <= stream.len());
        assert(no_match_between(stream.take(c), pat, cuts[i], c));
        lemma_no_match_survives_append(stream.take(c), stream.skip(c), pat, cuts[i], c);
        assert(stream.take(c) + stream.skip(c) =~= stream);
        lemma_no_match_join(stream, pat, cuts[i], c);
    }
}

/// A receive up to a delimiter gives the same bytes however the stream was
/// split over reads. The buffer grows by reads: scan `i` saw the first
/// `cuts[i + 1]` bytes of the stream from index `cuts[i]` on and came to
/// nothing (`Pending(cuts[i + 1])`); the last scan, from the last cut on,
/// found the delimiter ending at `j`. Then `j` is where its first occurrence
/// in the whole stream ends, and the bytes handed out are the shortest prefix
/// of the stream that ends with the delimiter.
pub proof fn lemma_scan_split_over_reads(stream: Seq<u8>, pat: Seq<u8>, cuts: Seq<int>, j: int)
    requires
        cuts.len() >= 1,
        cuts[0] == 0,
        forall|i: int| 0 <= i < cuts.len() - 1 ==> cuts[i] <= #[trigger] cuts[i + 1] <= stream.len(),
        forall|i: int|
            0 <= i < cuts.len() - 1 ==> no_match_between(
                #[trigger] stream.take(cuts[i + 1]),
                pat,
                cuts[i],
                cuts[i + 1],
            ),
        cuts.last() <= j,
        match_end_at(stream, pat, j),
        no_match_between(stream, pat, cuts.last(), j),
    ensures
        no_match_between(stream, pat, 0, j),
        ends_with(stream.take(j + 1), pat),
        forall|n: int| 0 <= n <= j ==> !ends_with(#[trigger] stream.take(j + 1).take(n), pat),
{
    lemma_pending_scans_cover(stream, pat, cuts, cuts.len() - 1);
    lemma_no_match_join(stream, pat, cuts.last(), j);
    lemma_first_match_is_shortest(stream, pat, j);
}

/// An occurrence of the one-byte pattern `[b]` ends exactly where `b` stands.
pub proof fn lemma_single_byte_match(buf: Seq<u8>, b: u8, j: int)
    requires
        0 <= j < buf.len(),
    ensures
        match_end_at(buf, seq![b], j) == (buf[j] == b),
{
    if buf[j] == b {
        assert(buf.subrange(j, j + 1) =~= seq![b]);
    } else {
        assert(buf.subrange(j, j + 1)[0] == buf[j]);
    }
}

/// A line scan is a scan for the one-byte delimiter `[10]`: from any start,
/// a newline stands at `j` with none before it exactly when an occurrence of
/// `[10]` ends at `j` with none ending before it, and a scan that finds no
/// newline in a range finds no occurrence there either. So `recvline(from)`
/// and `recvuntil(b"\n", from)` hand out the same bytes and leave the same
/// buffer.
pub proof fn lemma_line_scan_is_newline_scan(buf: Seq<u8>, from: int, to: int)
    requires
        0 <= from <= to <= buf.len(),
    ensures
        forall|j: int| 0 <= j < buf.len() ==> #[trigger] match_end_at(buf, seq![10u8], j) == (buf[j] == 10u8),
        no_match_between(buf, seq![10u8], from, to) <==> (forall|k: int| from <= k < to ==> buf[k] != 10u8),
{
    assert forall|j: int| 0 <= j < buf.len() implies #[trigger] match_end_at(buf, seq![10u8], j) == (buf[j] == 10u8) by {
        lemma_single_byte_match(buf, 10u8, j);
    }
    if no_match_between(buf, seq![10u8], from, to) {
        assert forall|k: int| from <= k < to implies buf[k] != 10u8 by {
            lemma_single_byte_match(buf, 10u8, k);
        }
    }
    if forall|k: int| from <= k < to ==> buf[k] != 10u8 {
        assert forall|k: int| from <= k < to implies !#[trigger] match_end_at(buf, seq![10u8], k) by {
            lemma_single_byte_match(buf, 10u8, k);
        }
    }
}

} // verus!
