//! Splitting a range of term indices into balanced, contiguous pieces.

use std::ops::Range;
use vstd::prelude::*;

verus! {

/// Number of indices in `range`; a range whose end is not above its start is empty.
pub open spec fn range_len(range: Range<u64>) -> nat {
    if range.start < range.end {
        (range.end - range.start) as nat
    } else {
        0
    }
}

/// Number of pieces that splitting `len` indices into `count` pieces yields:
/// none for `count == 0`, one per index when there are fewer indices than
/// pieces asked for, and `count` otherwise.
pub open spec fn piece_count(len: nat, count: nat) -> nat {
    if count == 0 {
        0
    } else if len < count {
        len
    } else {
        count
    }
}

/// Offset from the start of the range at which piece `i` begins. Every piece
/// has `len / count` indices, and each of the first `len % count` pieces has
/// one more.
pub open spec fn piece_offset(len: nat, count: nat, i: int) -> int {
    let extra = (len % count) as int;
    i * ((len / count) as int) + if i < extra {
        i
    } else {
        extra
    }
}

/// Piece `i` of the split of `range` into `count` pieces.
pub open spec fn piece(range: Range<u64>, count: nat, i: int) -> Range<u64> {
    Range {
        start: (range.start + piece_offset(range_len(range), count, i)) as u64,
        end: (range.start + piece_offset(range_len(range), count, i + 1)) as u64,
    }
}

/// The split of `range` into `count` pieces, in ascending order.
pub open spec fn split_spec(range: Range<u64>, count: nat) -> Seq<Range<u64>> {
    Seq::new(piece_count(range_len(range), count), |i: int| piece(range, count, i))
}

/// Offsets grow with the piece index, start at zero and reach `len` at the
/// number of pieces.
pub proof fn lemma_piece_offset(len: nat, count: nat, i: int)
    requires
        count > 0,
        0 <= i < piece_count(len, count),
    ensures
        piece_offset(len, count, 0) == 0,
        piece_offset(len, count, piece_count(len, count) as int) == len,
        0 <= piece_offset(len, count, i) < piece_offset(len, count, i + 1) <= len,
        piece_offset(len, count, i + 1) - piece_offset(len, count, i) == len / count + if i < len
            % count {
            1int
        } else {
            0int
        },
{
    let q = (len / count) as int;
    let r = (len % count) as int;
    let c = count as int;
    let m = piece_count(len, count) as int;
    assert(len == c * q + r && 0 <= r < c && 0 <= q) by (nonlinear_arith)
        requires
            q == (len / count) as int,
            r == (len % count) as int,
            c == count as int,
            c > 0,
    ;
    assert(0 * q == 0);
    assert((i + 1) * q == i * q + q) by (nonlinear_arith);
    assert(0 <= i * q) by (nonlinear_arith)
        requires
            0 <= i,
            0 <= q,
    ;
    if len < count {
        assert(q == 0) by (nonlinear_arith)
            requires
                len == c * q + r,
                0 <= r,
                0 <= q,
                len < c,
        ;
        assert(m * q == 0 && i * q == 0 && c * q == 0) by (nonlinear_arith)
            requires
                q == 0,
        ;
    } else {
        assert(q >= 1) by (nonlinear_arith)
            requires
                len == c * q + r,
                r < c,
                len >= c,
                0 <= q,
                0 < c,
        ;
        assert(m * q == c * q);
        assert((i + 1) * q <= c * q) by (nonlinear_arith)
            requires
                i + 1 <= c,
                0 <= q,
        ;
    }
}

/// Splits `range` into `subrange_count` contiguous pieces whose lengths differ
/// by at most one, the longer pieces first. Fewer pieces come back when the
/// range holds fewer indices than pieces asked for, and none for an empty
/// range or for `subrange_count == 0`.
pub fn split_range_to_count(range: &Range<u64>, subrange_count: u64) -> (result: Vec<Range<u64>>)
    ensures
        result@ == split_spec(*range, subrange_count as nat),
{
    let mut result: Vec<Range<u64>> = Vec::new();
    if subrange_count == 0 || range.start >= range.end {
        assert(result@ =~= split_spec(*range, subrange_count as nat));
        return result;
    }
    let range_length: u64 = range.end - range.start;
    let items_per_subrange: u64 = range_length / subrange_count;
    let mut remainder: u64 = range_length % subrange_count;
    let mut current_index: u64 = range.start;
    let ghost len = range_length as nat;
    let ghost count = subrange_count as nat;
    let ghost pieces = piece_count(len, count) as int;

    while current_index < range.end
        invariant
            count == subrange_count > 0,
            len == range_length == range_len(*range) > 0,
            range.start < range.end,
            pieces == piece_count(len, count),
            items_per_subrange == len / count,
            0 <= result.len() <= pieces,
            current_index == range.start + piece_offset(len, count, result.len() as int),
            remainder == if result.len() < len % count {
                len % count - result.len()
            } else {
                0
            },
            forall|j: int| 0 <= j < result.len() ==> result@[j] == piece(*range, count, j),
        decreases range.end - current_index,
    {
        let ghost i = result.len() as int;
        proof {
            lemma_piece_offset(len, count, 0);
            assert(i < pieces);
            lemma_piece_offset(len, count, i);
        }
        let subrange_start: u64 = current_index;
        let mut subrange_end: u64 = current_index + items_per_subrange;

        if remainder > 0 {
            subrange_end += 1;
            remainder -= 1;
        }
        result.push(Range { start: subrange_start, end: subrange_end });
        current_index = subrange_end;
    }
    proof {
        if result.len() < pieces {
            lemma_piece_offset(len, count, result.len() as int);
        }
        assert(result@ =~= split_spec(*range, count));
    }
    result
}

/// Groups `pieces` for workers: group `i` pairs piece `i` with the piece that
/// stands as far from the end as piece `i` stands from the start. With an odd
/// number of pieces the middle one forms the last group alone.
pub open spec fn paired_spec(pieces: Seq<Range<u64>>) -> Seq<Seq<Range<u64>>> {
    Seq::new(
        (pieces.len() + 1) / 2,
        |i: int|
            if 2 * i + 1 < pieces.len() {
                seq![pieces[i], pieces[pieces.len() - 1 - i]]
            } else {
                seq![pieces[i]]
            },
    )
}

/// Asking for more pieces than `u64` can count gives the same split as
/// asking for `u64::MAX` pieces: either way every index is a piece of its own.
pub proof fn lemma_split_saturates(range: Range<u64>, count: nat)
    requires
        count >= u64::MAX,
    ensures
        split_spec(range, count) == split_spec(range, u64::MAX as nat),
{
    let len = range_len(range);
    let top = u64::MAX as nat;
    assert(len <= top);
    if count > top {
        vstd::arithmetic::div_mod::lemma_small_mod(len, count);
        vstd::arithmetic::div_mod::lemma_basic_div(len as int, count as int);
        if len < top {
            vstd::arithmetic::div_mod::lemma_small_mod(len, top);
            vstd::arithmetic::div_mod::lemma_basic_div(len as int, top as int);
        } else {
            vstd::arithmetic::div_mod::lemma_div_by_self(top as int);
            vstd::arithmetic::div_mod::lemma_mod_self_0(top as int);
        }
        assert forall|i: int| 0 <= i <= len implies piece_offset(len, count, i) == piece_offset(
            len,
            top,
            i,
        ) by {
            assert(i * 0 == 0);
            assert(i * 1 == i);
        }
        assert(split_spec(range, count) =~= split_spec(range, top));
    }
}

/// Splits `range` into twice as many pieces as there are threads and pairs
/// each early piece with a late one, so that every group holds cheap and
/// costly indices alike.
pub fn split_range_for_threading(range: &Range<u64>, thread_count: u64) -> (result: Vec<
    Vec<Range<u64>>,
>)
    ensures
        result@.len() == paired_spec(split_spec(*range, 2 * thread_count as nat)).len(),
        forall|i: int|
            0 <= i < result@.len() ==> (#[trigger] result@[i])@ == paired_spec(
                split_spec(*range, 2 * thread_count as nat),
            )[i],
{
    let subrange_count: u64 = if thread_count > u64::MAX / 2 {
        u64::MAX
    } else {
        thread_count * 2
    };
    let split_ranges = split_range_to_count(range, subrange_count);
    proof {
        if thread_count > u64::MAX / 2 {
            lemma_split_saturates(*range, 2 * thread_count as nat);
        }
    }
    let ghost pieces = split_spec(*range, 2 * thread_count as nat);
    let total: usize = split_ranges.len();
    let mut result: Vec<Vec<Range<u64>>> = Vec::new();
    let mut i: usize = 0;
    while i < total / 2
        invariant
            split_ranges@ == pieces,
            total == pieces.len(),
            i <= total / 2,
            result@.len() == i,
            forall|j: int| 0 <= j < i ==> (#[trigger] result@[j])@ == paired_spec(pieces)[j],
        decreases total / 2 - i,
    {
        let first = &split_ranges[i];
        let second = &split_ranges[total - i - 1];
        let mut group: Vec<Range<u64>> = Vec::new();
        group.push(Range { start: first.start, end: first.end });
        group.push(Range { start: second.start, end: second.end });
        assert(group@ =~= paired_spec(pieces)[i as int]);
        result.push(group);
        i += 1;
    }
    if total % 2 == 1 {
        let middle = &split_ranges[total / 2];
        let mut group: Vec<Range<u64>> = Vec::new();
        group.push(Range { start: middle.start, end: middle.end });
        assert(group@ =~= paired_spec(pieces)[i as int]);
        result.push(group);
    }
    result
}

/// Whether the index `k` lies in `range`.
pub open spec fn in_range(range: Range<u64>, k: u64) -> bool {
    range.start <= k < range.end
}

/// Whether `pieces` cut `range` up: every piece holds an index, the first
/// begins where the range begins, each of the others begins where the one
/// before it ends, and the last ends where the range ends. No pieces cut up
/// an empty range.
pub open spec fn is_partition(pieces: Seq<Range<u64>>, range: Range<u64>) -> bool {
    if pieces.len() == 0 {
        range_len(range) == 0
    } else {
        &&& pieces[0].start == range.start
        &&& pieces[pieces.len() - 1].end == range.end
        &&& forall|i: int| 0 <= i < pieces.len() ==> (#[trigger] pieces[i]).start < pieces[i].end
        &&& forall|i: int|
            0 <= i < pieces.len() - 1 ==> (#[trigger] pieces[i]).end == pieces[i + 1].start
    }
}

/// Sum of the lengths of `pieces`.
pub open spec fn total_len(pieces: Seq<Range<u64>>) -> nat
    decreases pieces.len(),
{
    if pieces.len() == 0 {
        0
    } else {
        total_len(pieces.drop_last()) + range_len(pieces.last())
    }
}

/// Asking for no pieces, or splitting an empty range, yields no pieces.
pub proof fn lemma_split_of_nothing(range: Range<u64>, count: nat)
    requires
        count == 0 || range.start >= range.end,
    ensures
        split_spec(range, count) == Seq::<Range<u64>>::empty(),
{
    assert(split_spec(range, count) =~= Seq::<Range<u64>>::empty());
}

/// A split into at least one piece cuts the range up, and holds as many
/// pieces as were asked for, or one piece for each index where the range
/// holds fewer.
pub proof fn lemma_split_is_partition(range: Range<u64>, count: nat)
    requires
        count > 0,
    ensures
        is_partition(split_spec(range, count), range),
        split_spec(range, count).len() == piece_count(range_len(range), count),
{
    let len = range_len(range);
    let pieces = split_spec(range, count);
    if pieces.len() > 0 {
        lemma_piece_offset(len, count, 0);
        assert forall|i: int| 0 <= i < pieces.len() implies (#[trigger] pieces[i]).start
            < pieces[i].end && pieces[i].start == range.start + piece_offset(len, count, i)
            && pieces[i].end == range.start + piece_offset(len, count, i + 1) by {
            lemma_piece_offset(len, count, i);
        }
        assert(pieces[0].start == range.start);
        assert(pieces[pieces.len() - 1].end == range.end);
    }
}

/// Without its last piece, what cuts a range up cuts up the part of the
/// range before that piece.
pub proof fn lemma_partition_without_last(pieces: Seq<Range<u64>>, range: Range<u64>)
    requires
        is_partition(pieces, range),
        pieces.len() > 0,
    ensures
        is_partition(pieces.drop_last(), Range { start: range.start, end: pieces.last().start }),
        range.start <= pieces.last().start < pieces.last().end == range.end,
    decreases pieces.len(),
{
    let rest = pieces.drop_last();
    let before = Range { start: range.start, end: pieces.last().start };
    if rest.len() > 0 {
        assert(rest[0] == pieces[0]);
        assert(rest[rest.len() - 1] == pieces[pieces.len() - 2]);
        assert forall|i: int| 0 <= i < rest.len() implies (#[trigger] rest[i]).start
            < rest[i].end by {
            assert(rest[i] == pieces[i]);
        }
        assert forall|i: int| 0 <= i < rest.len() - 1 implies (#[trigger] rest[i]).end == rest[i
            + 1].start by {
            assert(rest[i] == pieces[i]);
            assert(rest[i + 1] == pieces[i + 1]);
        }
        lemma_partition_without_last(rest, before);
    }
}

/// The pieces that cut a range up stand in ascending order and do not
/// overlap: an earlier piece ends before a later one begins.
pub proof fn lemma_partition_is_ordered(pieces: Seq<Range<u64>>, range: Range<u64>, i: int, j: int)
    requires
        is_partition(pieces, range),
        0 <= i < j < pieces.len(),
    ensures
        pieces[i].end <= pieces[j].start,
        range.start <= pieces[i].start,
        pieces[j].end <= range.end,
    decreases pieces.len(),
{
    lemma_partition_without_last(pieces, range);
    let rest = pieces.drop_last();
    let before = Range { start: range.start, end: pieces.last().start };
    if j < pieces.len() - 1 {
        lemma_partition_is_ordered(rest, before, i, j);
        assert(rest[i] == pieces[i]);
        assert(rest[j] == pieces[j]);
    } else if i < j - 1 {
        lemma_partition_is_ordered(rest, before, i, j - 1);
        assert(rest[i] == pieces[i]);
        assert(rest[j - 1] == pieces[j - 1]);
    } else {
        assert(rest[0] == pieces[0]);
        if i > 0 {
            lemma_partition_is_ordered(rest, before, 0, i);
        }
    }
}

/// The lengths of the pieces that cut a range up add up to the length of
/// the range.
pub proof fn lemma_partition_total_len(pieces: Seq<Range<u64>>, range: Range<u64>)
    requires
        is_partition(pieces, range),
    ensures
        total_len(pieces) == range_len(range),
    decreases pieces.len(),
{
    if pieces.len() > 0 {
        lemma_partition_without_last(pieces, range);
        lemma_partition_total_len(
            pieces.drop_last(),
            Range { start: range.start, end: pieces.last().start },
        );
    }
}

/// Every index of a range lies in exactly one of the pieces that cut the
/// range up, and the pieces hold no other index.
pub proof fn lemma_partition_covers_once(pieces: Seq<Range<u64>>, range: Range<u64>, k: u64)
    requires
        is_partition(pieces, range),
    ensures
        in_range(range, k) <==> exists|i: int|
            0 <= i < pieces.len() && in_range(#[trigger] pieces[i], k),
        forall|i: int, j: int|
            0 <= i < pieces.len() && 0 <= j < pieces.len() && in_range(#[trigger] pieces[i], k)
                && in_range(#[trigger] pieces[j], k) ==> i == j,
    decreases pieces.len(),
{
    assert forall|i: int, j: int|
        0 <= i < pieces.len() && 0 <= j < pieces.len() && in_range(#[trigger] pieces[i], k)
            && in_range(#[trigger] pieces[j], k) implies i == j by {
        if i < j {
            lemma_partition_is_ordered(pieces, range, i, j);
        } else if j < i {
            lemma_partition_is_ordered(pieces, range, j, i);
        }
    }
    if pieces.len() > 0 {
        lemma_partition_without_last(pieces, range);
        let rest = pieces.drop_last();
        let before = Range { start: range.start, end: pieces.last().start };
        lemma_partition_covers_once(rest, before, k);
        let last = pieces.len() - 1;
        if in_range(range, k) {
            if in_range(pieces[last], k) {
            } else {
                let i = choose|i: int| 0 <= i < rest.len() && in_range(#[trigger] rest[i], k);
                assert(rest[i] == pieces[i]);
                assert(in_range(pieces[i], k));
            }
        }
        if exists|i: int| 0 <= i < pieces.len() && in_range(#[trigger] pieces[i], k) {
            let i = choose|i: int| 0 <= i < pieces.len() && in_range(#[trigger] pieces[i], k);
            if i < last {
                assert(rest[i] == pieces[i]);
                assert(in_range(rest[i], k));
            }
        }
    }
}

/// A split into at least one piece is a partition of its range: the pieces
/// hold an index each, no two of them overlap, their lengths add up to the
/// length of the range, and every index of the range lies in one of them.
/// A split into no pieces, or of an empty range, is empty.
pub proof fn lemma_split_partitions(range: Range<u64>, count: nat)
    ensures
        count == 0 || range_len(range) == 0 ==> split_spec(range, count).len() == 0,
        count > 0 ==> total_len(split_spec(range, count)) == range_len(range),
        forall|i: int|
            0 <= i < split_spec(range, count).len() ==> (#[trigger] split_spec(
                range,
                count,
            )[i]).start < split_spec(range, count)[i].end,
        forall|i: int, j: int|
            0 <= i < j < split_spec(range, count).len() ==> (#[trigger] split_spec(
                range,
                count,
            )[i]).end <= (#[trigger] split_spec(range, count)[j]).start,
        forall|k: u64|
            count > 0 && #[trigger] in_range(range, k) ==> exists|i: int|
                0 <= i < split_spec(range, count).len() && in_range(
                    #[trigger] split_spec(range, count)[i],
                    k,
                ),
{
    let pieces = split_spec(range, count);
    if count > 0 {
        lemma_split_is_partition(range, count);
        lemma_partition_total_len(pieces, range);
        assert forall|i: int, j: int| 0 <= i < j < pieces.len() implies (#[trigger] pieces[i]).end
            <= (#[trigger] pieces[j]).start by {
            lemma_partition_is_ordered(pieces, range, i, j);
        }
        assert forall|k: u64| #[trigger] in_range(range, k) implies exists|i: int|
            0 <= i < pieces.len() && in_range(#[trigger] pieces[i], k) by {
            lemma_partition_covers_once(pieces, range, k);
        }
    }
}

/// Index of the piece that stands in group `group` at place `place`, where
/// there are `count` pieces.
pub open spec fn paired_index(count: nat, group: int, place: int) -> int {
    if place == 0 {
        group
    } else {
        count - 1 - group
    }
}

/// Whether piece `j` stands in one of the groups.
pub open spec fn has_place(pieces: Seq<Range<u64>>, j: int) -> bool {
    exists|g: int, t: int|
        0 <= g < paired_spec(pieces).len() && 0 <= t < paired_spec(pieces)[g].len()
            && #[trigger] paired_index(pieces.len(), g, t) == j
}

/// The groups hold every piece exactly once: each place of each group holds
/// the piece that `paired_index` names, every piece has a place, and no two
/// places hold the same piece.
pub proof fn lemma_pairing_rearranges(pieces: Seq<Range<u64>>)
    ensures
        forall|g: int, t: int|
            0 <= g < paired_spec(pieces).len() && 0 <= t < (#[trigger] paired_spec(
                pieces,
            )[g]).len() ==> 0 <= paired_index(pieces.len(), g, t) < pieces.len()
                && #[trigger] paired_spec(pieces)[g][t] == pieces[paired_index(
                pieces.len(),
                g,
                t,
            )],
        forall|j: int| 0 <= j < pieces.len() ==> #[trigger] has_place(pieces, j),
        forall|g: int, t: int, h: int, u: int|
            0 <= g < paired_spec(pieces).len() && 0 <= t < paired_spec(pieces)[g].len() && 0 <= h
                < paired_spec(pieces).len() && 0 <= u < paired_spec(pieces)[h].len()
                && #[trigger] paired_index(pieces.len(), g, t) == #[trigger] paired_index(
                pieces.len(),
                h,
                u,
            ) ==> g == h && t == u,
{
    let count = pieces.len();
    let groups = paired_spec(pieces);
    assert forall|j: int| 0 <= j < count implies #[trigger] has_place(pieces, j) by {
        if 2 * j + 1 <= count {
            assert(paired_index(count, j, 0) == j);
        } else {
            assert(paired_index(count, count - 1 - j, 1) == j);
        }
    }
}

} // verus!
