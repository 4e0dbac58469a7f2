//! The reassembly buffer: a sorted, overlap-free store of payload segments
//! keyed by sequence range.
//!
//! Every insertion checks the arriving segment against the stored ones.
//! Where a stored segment overlaps the arriving one and the two disagree on
//! the overlapping bytes, an [`OverlapBlock`] reports the disagreement with
//! the stored bytes as the winner. Only the parts of the arriving segment
//! that no stored segment covers are stored.

use vstd::prelude::*;

use crate::packet::{PacketManifest, Payload, TcpLayer};
use crate::sequence::{Sequence, SequenceRange};

verus! {

/// One stored segment: its key range and the owned packet holding its bytes.
pub type StoredSegment = (SequenceRange, PacketManifest<'static>);

/// A detected disagreement between a stored segment (`winner`) and an
/// arriving one (`loser`) over the bytes of `range`.
#[derive(Debug)]
pub struct OverlapBlock {
    pub winner: Vec<u8>,
    pub loser: Vec<u8>,
    pub range: SequenceRange,
}

impl OverlapBlock {
    /// The mathematical content of the block.
    pub open spec fn model(self) -> (Seq<u8>, Seq<u8>, SequenceRange) {
        (self.winner@, self.loser@, self.range)
    }
}

impl PartialEq for OverlapBlock {
    /// Blocks compare by byte contents; ranges compare as ranges do, by
    /// intersection.
    fn eq(&self, other: &OverlapBlock) -> (r: bool) {
        crate::packet::bytes_eq(self.winner.as_slice(), other.winner.as_slice())
            && crate::packet::bytes_eq(self.loser.as_slice(), other.loser.as_slice())
            && self.range == other.range
    }
}

impl vstd::std_specs::cmp::PartialEqSpecImpl for OverlapBlock {
    open spec fn obeys_eq_spec() -> bool {
        true
    }

    open spec fn eq_spec(&self, other: &OverlapBlock) -> bool {
        self.winner@ == other.winner@ && self.loser@ == other.loser@
            && self.range.spec_overlaps(other.range)
    }
}

/// Whether `r` covers the sequence position `pos`.
pub open spec fn covers(r: SequenceRange, pos: int) -> bool {
    r.from.0 <= pos <= r.to.0
}

/// Whether some segment of `s` covers the sequence position `pos`.
pub open spec fn segments_cover(s: Seq<StoredSegment>, pos: int) -> bool {
    exists|i: int| 0 <= i < s.len() && covers(#[trigger] s[i].0, pos)
}

/// A stored segment is internally consistent: its range is in order and its
/// packet's sequence number and payload length match the range exactly.
pub open spec fn segment_wf(e: StoredSegment) -> bool {
    &&& e.0.wf()
    &&& e.1.tcp.seq == e.0.from.0
    &&& e.1.tcp_payload@.len() == e.0.spec_size()
}

/// The sum of the range sizes of the segments.
pub open spec fn sum_sizes(s: Seq<StoredSegment>) -> int
    decreases s.len(),
{
    if s.len() == 0 {
        0
    } else {
        s[0].0.spec_size() + sum_sizes(s.drop_first())
    }
}

/// The intersection of two overlapping ranges.
pub open spec fn intersection(a: SequenceRange, b: SequenceRange) -> SequenceRange {
    SequenceRange {
        from: Sequence(if a.from.0 >= b.from.0 { a.from.0 } else { b.from.0 }),
        to: Sequence(if a.to.0 <= b.to.0 { a.to.0 } else { b.to.0 }),
    }
}

/// The bytes a stored segment holds for its overlap with `range`.
pub open spec fn stored_overlap_bytes(e: StoredSegment, range: SequenceRange) -> Seq<u8> {
    let ov = intersection(e.0, range);
    e.1.tcp_payload@.subrange(ov.from.0 - e.0.from.0, ov.to.0 - e.0.from.0 + 1)
}

/// The bytes an arriving segment (of range `range` and payload `payload`)
/// holds for its overlap with the stored segment `e`.
pub open spec fn arriving_overlap_bytes(
    e: StoredSegment,
    range: SequenceRange,
    payload: Seq<u8>,
) -> Seq<u8> {
    let ov = intersection(e.0, range);
    payload.subrange(ov.from.0 - range.from.0, ov.to.0 - range.from.0 + 1)
}

/// The overlap report one stored segment owes an arriving segment of range
/// `range` and payload `payload`: nothing if they do not overlap or the
/// overlapping bytes agree, otherwise the pair of disagreeing byte runs with
/// the stored bytes first.
pub open spec fn segment_blocks(
    e: StoredSegment,
    range: SequenceRange,
    payload: Seq<u8>,
) -> Seq<(Seq<u8>, Seq<u8>, SequenceRange)> {
    if !e.0.spec_overlaps(range) {
        Seq::empty()
    } else {
        let winner = stored_overlap_bytes(e, range);
        let loser = arriving_overlap_bytes(e, range, payload);
        if winner != loser {
            seq![(winner, loser, intersection(e.0, range))]
        } else {
            Seq::empty()
        }
    }
}

/// The overlap reports the stored segments `s` owe an arriving segment, in
/// storage order.
pub open spec fn spec_blocks(
    s: Seq<StoredSegment>,
    range: SequenceRange,
    payload: Seq<u8>,
) -> Seq<(Seq<u8>, Seq<u8>, SequenceRange)>
    decreases s.len(),
{
    if s.len() == 0 {
        Seq::empty()
    } else {
        segment_blocks(s[0], range, payload) + spec_blocks(s.drop_first(), range, payload)
    }
}

/// Whether `e` carries, under its own key range, exactly the bytes the
/// arriving packet (of range `range`) holds for that key range, with the
/// packet's headers otherwise unchanged.
pub open spec fn is_sub_packet_of(
    e: StoredSegment,
    packet: PacketManifest<'static>,
    range: SequenceRange,
) -> bool {
    &&& range.from.0 <= e.0.from.0
    &&& e.0.to.0 <= range.to.0
    &&& e.1.ip == packet.ip
    &&& e.1.tcp == (crate::packet::TcpLayer { seq: e.0.from.0, ..packet.tcp })
    &&& e.1.tcp_payload@ == packet.tcp_payload@.subrange(
        e.0.from.0 - range.from.0,
        e.0.to.0 - range.from.0 + 1,
    )
}

/// The inclusive range of sequence positions a packet's payload occupies.
pub open spec fn arriving_range(packet: PacketManifest) -> SequenceRange {
    SequenceRange {
        from: Sequence(packet.tcp.seq),
        to: Sequence((packet.tcp.seq + packet.tcp_payload@.len() - 1) as u32),
    }
}

/// The range `rg` is a maximal run of the arriving range `range` with
/// respect to the stored segments `s`: stretching it by one position on
/// either side would leave `range` or hit a stored segment. Together with
/// coverage, this pins how the uncovered part of an arriving packet is cut
/// into stored pieces.
pub open spec fn is_maximal_run(rg: SequenceRange, s: Seq<StoredSegment>, range: SequenceRange) -> bool {
    &&& (rg.from.0 == range.from.0 || segments_cover(s, rg.from.0 - 1))
    &&& (rg.to.0 == range.to.0 || segments_cover(s, rg.to.0 + 1))
}

/// Whether some range of `rs` covers the sequence position `pos`.
pub open spec fn remainders_cover(rs: Seq<SequenceRange>, pos: int) -> bool {
    exists|i: int| 0 <= i < rs.len() && covers(#[trigger] rs[i], pos)
}

/// The ranges are in ascending order and pairwise non-overlapping.
pub open spec fn ranges_sorted(rs: Seq<SequenceRange>) -> bool {
    forall|i: int, j: int|
        0 <= i < j < rs.len() ==> (#[trigger] rs[i]).to.0 < (#[trigger] rs[j]).from.0
}

/// Every range is well-formed and lies within `range`.
pub open spec fn ranges_within(rs: Seq<SequenceRange>, range: SequenceRange) -> bool {
    forall|i: int|
        0 <= i < rs.len()
            ==> (#[trigger] rs[i]).wf() && range.from.0 <= rs[i].from.0 && rs[i].to.0
            <= range.to.0
}

/// The mathematical contents of a list of overlap blocks.
pub open spec fn blocks_model(bs: Seq<OverlapBlock>) -> Seq<(Seq<u8>, Seq<u8>, SequenceRange)> {
    bs.map_values(|b: OverlapBlock| b.model())
}

/// Appending one segment appends its own overlap report.
proof fn lemma_spec_blocks_push(
    s: Seq<StoredSegment>,
    e: StoredSegment,
    range: SequenceRange,
    payload: Seq<u8>,
)
    ensures
        spec_blocks(s.push(e), range, payload) == spec_blocks(s, range, payload) + segment_blocks(
            e,
            range,
            payload,
        ),
    decreases s.len(),
{
    if s.len() == 0 {
        assert(s.push(e)[0] == e);
        assert(s.push(e).drop_first() =~= s);
        assert(spec_blocks(s, range, payload) == Seq::<(Seq<u8>, Seq<u8>, SequenceRange)>::empty());
        assert(spec_blocks(s.push(e), range, payload) =~= segment_blocks(e, range, payload));
    } else {
        assert(s.push(e)[0] == s[0]);
        assert(s.push(e).drop_first() =~= s.drop_first().push(e));
        lemma_spec_blocks_push(s.drop_first(), e, range, payload);
        assert(spec_blocks(s.push(e), range, payload) == segment_blocks(s[0], range, payload)
            + (spec_blocks(s.drop_first(), range, payload) + segment_blocks(e, range, payload)));
        assert(segment_blocks(s[0], range, payload) + (spec_blocks(
            s.drop_first(),
            range,
            payload,
        ) + segment_blocks(e, range, payload)) =~= (segment_blocks(s[0], range, payload)
            + spec_blocks(s.drop_first(), range, payload)) + segment_blocks(e, range, payload));
    }
}

/// One more processed segment extends the report by that segment's own
/// report.
proof fn lemma_spec_blocks_take_step(
    s: Seq<StoredSegment>,
    i: int,
    range: SequenceRange,
    payload: Seq<u8>,
)
    requires
        0 <= i < s.len(),
    ensures
        spec_blocks(s.take(i + 1), range, payload) == spec_blocks(s.take(i), range, payload)
            + segment_blocks(s[i], range, payload),
{
    assert(s.take(i + 1) =~= s.take(i).push(s[i]));
    lemma_spec_blocks_push(s.take(i), s[i], range, payload);
}

/// Segments that do not overlap the arriving range report nothing, so the
/// report of the whole store is the report of the prefix that was walked.
proof fn lemma_spec_blocks_rest_noop(
    s: Seq<StoredSegment>,
    i: int,
    range: SequenceRange,
    payload: Seq<u8>,
)
    requires
        0 <= i <= s.len(),
        forall|j: int| i <= j < s.len() ==> !(#[trigger] s[j]).0.spec_overlaps(range),
    ensures
        spec_blocks(s, range, payload) == spec_blocks(s.take(i), range, payload),
    decreases s.len() - i,
{
    if i == s.len() {
        assert(s.take(i) =~= s);
    } else {
        lemma_spec_blocks_take_step(s, i, range, payload);
        assert(segment_blocks(s[i], range, payload) == Seq::<(
            Seq<u8>,
            Seq<u8>,
            SequenceRange,
        )>::empty());
        assert(spec_blocks(s.take(i + 1), range, payload) =~= spec_blocks(
            s.take(i),
            range,
            payload,
        ));
        lemma_spec_blocks_rest_noop(s, i + 1, range, payload);
    }
}

/// Walking one more segment extends coverage by that segment's range.
proof fn lemma_cover_take_step(s: Seq<StoredSegment>, i: int, pos: int)
    requires
        0 <= i < s.len(),
    ensures
        segments_cover(s.take(i + 1), pos) <==> (segments_cover(s.take(i), pos) || covers(
            s[i].0,
            pos,
        )),
{
    if segments_cover(s.take(i + 1), pos) {
        let k = choose|k: int| 0 <= k < s.take(i + 1).len() && covers(#[trigger] s.take(i + 1)[k].0, pos);
        if k < i {
            assert(covers(s.take(i)[k].0, pos));
        } else {
            assert(covers(s[i].0, pos));
        }
    }
    if segments_cover(s.take(i), pos) {
        let k = choose|k: int| 0 <= k < s.take(i).len() && covers(#[trigger] s.take(i)[k].0, pos);
        assert(covers(s.take(i + 1)[k].0, pos));
    }
    if covers(s[i].0, pos) {
        assert(covers(s.take(i + 1)[i].0, pos));
    }
}

/// Segments that start past the arriving range cover none of it, so coverage
/// of the arriving range by the whole store is coverage by the walked
/// prefix.
proof fn lemma_cover_rest_noop(s: Seq<StoredSegment>, i: int, range: SequenceRange, pos: int)
    requires
        0 <= i <= s.len(),
        forall|j: int| i <= j < s.len() ==> (#[trigger] s[j]).0.from.0 > range.to.0,
        covers(range, pos),
    ensures
        segments_cover(s, pos) <==> segments_cover(s.take(i), pos),
{
    if segments_cover(s, pos) {
        let k = choose|k: int| 0 <= k < s.len() && covers(#[trigger] s[k].0, pos);
        if k < i {
            assert(covers(s.take(i)[k].0, pos));
        } else {
            assert(s[k].0.from.0 > range.to.0 >= pos);
            assert(false);
        }
    }
    if segments_cover(s.take(i), pos) {
        let k = choose|k: int| 0 <= k < s.take(i).len() && covers(#[trigger] s.take(i)[k].0, pos);
        assert(covers(s[k].0, pos));
    }
}

/// Appending one range extends coverage by exactly that range.
proof fn lemma_rem_push_cover(old_rem: Seq<SequenceRange>, nr: Seq<SequenceRange>, r: SequenceRange, pos: int)
    requires
        nr == old_rem.push(r),
    ensures
        remainders_cover(nr, pos) <==> (remainders_cover(old_rem, pos) || covers(r, pos)),
{
    if remainders_cover(nr, pos) {
        let k = choose|k: int| 0 <= k < nr.len() && covers(#[trigger] nr[k], pos);
        if k < old_rem.len() {
            assert(covers(old_rem[k], pos));
        } else {
            assert(covers(r, pos));
        }
    }
    if remainders_cover(old_rem, pos) {
        let k = choose|k: int| 0 <= k < old_rem.len() && covers(#[trigger] old_rem[k], pos);
        assert(covers(nr[k], pos));
    }
    if covers(r, pos) {
        assert(covers(nr[nr.len() - 1], pos));
    }
}

/// Inserting a segment adds its size to the sum.
proof fn lemma_sum_sizes_insert(s: Seq<StoredSegment>, k: int, e: StoredSegment)
    requires
        0 <= k <= s.len(),
    ensures
        sum_sizes(s.insert(k, e)) == sum_sizes(s) + e.0.spec_size(),
    decreases s.len(),
{
    if k == 0 {
        assert(s.insert(0, e)[0] == e);
        assert(s.insert(0, e).drop_first() =~= s);
    } else {
        assert(s.insert(k, e)[0] == s[0]);
        assert(s.insert(k, e).drop_first() =~= s.drop_first().insert(k - 1, e));
        lemma_sum_sizes_insert(s.drop_first(), k - 1, e);
        assert(s.len() > 0);
        assert(sum_sizes(s) == s[0].0.spec_size() + sum_sizes(s.drop_first()));
    }
}

/// Inserting a segment adds exactly it to the members.
proof fn lemma_insert_contains(s: Seq<StoredSegment>, k: int, e: StoredSegment, x: StoredSegment)
    requires
        0 <= k <= s.len(),
    ensures
        s.insert(k, e).contains(x) <==> (s.contains(x) || x == e),
{
    let t = s.insert(k, e);
    if t.contains(x) {
        let i = choose|i: int| 0 <= i < t.len() && t[i] == x;
        if i < k {
            assert(s[i] == x);
        } else if i == k {
        } else {
            assert(s[i - 1] == x);
        }
    }
    if s.contains(x) {
        let i = choose|i: int| 0 <= i < s.len() && s[i] == x;
        if i < k {
            assert(t[i] == x);
        } else {
            assert(t[i + 1] == x);
        }
    }
    assert(t[k] == e);
}

/// Inserting a segment extends coverage by exactly its range.
proof fn lemma_insert_cover(s: Seq<StoredSegment>, k: int, e: StoredSegment, pos: int)
    requires
        0 <= k <= s.len(),
    ensures
        segments_cover(s.insert(k, e), pos) <==> (segments_cover(s, pos) || covers(e.0, pos)),
{
    let t = s.insert(k, e);
    if segments_cover(t, pos) {
        let i = choose|i: int| 0 <= i < t.len() && covers(#[trigger] t[i].0, pos);
        if i < k {
            assert(covers(s[i].0, pos));
        } else if i > k {
            assert(covers(s[i - 1].0, pos));
        }
    }
    if segments_cover(s, pos) {
        let i = choose|i: int| 0 <= i < s.len() && covers(#[trigger] s[i].0, pos);
        if i < k {
            assert(covers(t[i].0, pos));
        } else {
            assert(covers(t[i + 1].0, pos));
        }
    }
    assert(t[k] == e);
}

/// Tracks out-of-order payload segments so they can be coalesced, and checks
/// every insertion for overlaps that disagree — the signature of a segment
/// injection.
pub struct OrderedCoalesce {
    total_size: u64,
    collection: Vec<StoredSegment>,
}

impl OrderedCoalesce {
    /// The stored segments, in ascending range order.
    pub closed spec fn segments(self) -> Seq<StoredSegment> {
        self.collection@
    }

    /// The running sum of stored bytes.
    pub closed spec fn spec_total_size(self) -> u64 {
        self.total_size
    }

    /// The store's invariant: every segment consistent, the keys sorted and
    /// pairwise non-overlapping, and `total_size` the sum of the key sizes.
    pub open spec fn wf(self) -> bool {
        &&& forall|i: int| 0 <= i < self.segments().len() ==> segment_wf(#[trigger] self.segments()[i])
        &&& forall|i: int, j: int|
            0 <= i < j < self.segments().len()
                ==> (#[trigger] self.segments()[i]).0.to.0 < (#[trigger] self.segments()[j]).0.from.0
        &&& self.spec_total_size() == sum_sizes(self.segments())
    }

    /// An empty store.
    pub fn new() -> (r: OrderedCoalesce)
        ensures
            r.segments().len() == 0,
            r.spec_total_size() == 0,
            r.wf(),
    {
        OrderedCoalesce { total_size: 0, collection: Vec::new() }
    }

    /// The running sum of stored bytes.
    pub fn total_size(&self) -> (r: u64)
        ensures
            r == self.spec_total_size(),
    {
        self.total_size
    }

    /// Whether inserts build [`OverlapBlock`] reports; the sensor always
    /// wants them.
    fn construct_overlap_blocks_enabled(&self) -> (r: bool)
        ensures
            r,
    {
        true
    }

    /// Tests the arriving segment (of range `range`, bytes `payload`)
    /// against the stored segments.
    ///
    /// Returns the pieces of `range` that no stored segment covers — sorted,
    /// non-overlapping, possibly none — and one [`OverlapBlock`] for every
    /// stored segment whose overlap with the arriving bytes disagrees.
    fn overlap_check(&self, range: SequenceRange, payload: &Payload) -> (r: (
        Vec<SequenceRange>,
        Option<Vec<OverlapBlock>>,
    ))
        requires
            self.wf(),
            range.wf(),
            payload@.len() == range.spec_size(),
        ensures
            r.1 matches Some(bs) && blocks_model(bs@) == spec_blocks(
                self.segments(),
                range,
                payload@,
            ),
            ranges_sorted(r.0@),
            ranges_within(r.0@, range),
            forall|k: int|
                0 <= k < r.0@.len() ==> is_maximal_run(#[trigger] r.0@[k], self.segments(), range),
            forall|pos: int|
                covers(range, pos)
                    ==> (remainders_cover(r.0@, pos) <==> !segments_cover(self.segments(), pos)),
    {
        let ghost segs = self.segments();
        let ghost pl = payload@;
        let mut rem: Vec<SequenceRange> = Vec::new();
        let mut blocks: Vec<OverlapBlock> = Vec::new();
        let mut cur: SequenceRange = range;
        let mut done: bool = false;
        let mut stop: bool = false;
        let mut i: usize = 0;
        let n: usize = self.collection.len();
        while i < n && !stop
            invariant
                self.wf(),
                range.wf(),
                pl == payload@,
                pl.len() == range.spec_size(),
                segs == self.segments(),
                n == segs.len(),
                0 <= i <= n,
                blocks_model(blocks@) == spec_blocks(segs.take(i as int), range, pl),
                ranges_sorted(rem@),
                ranges_within(rem@, range),
                forall|k: int|
                    0 <= k < rem@.len() ==> is_maximal_run(#[trigger] rem@[k], segs, range),
                !done ==> {
                    &&& cur.wf()
                    &&& cur.to == range.to
                    &&& range.from.0 <= cur.from.0
                    &&& (cur.from.0 == range.from.0 || segments_cover(segs, cur.from.0 - 1))
                    &&& forall|k: int| 0 <= k < rem@.len() ==> (#[trigger] rem@[k]).to.0 < cur.from.0
                    &&& forall|j: int| 0 <= j < i ==> (#[trigger] segs[j]).0.to.0 < cur.from.0
                    &&& (cur.from.0 == range.from.0 && rem@.len() == 0) || (forall|j: int|
                        i <= j < n ==> (#[trigger] segs[j]).0.from.0 >= cur.from.0)
                    &&& forall|pos: int|
                        range.from.0 <= pos < cur.from.0 ==> (remainders_cover(rem@, pos)
                            <==> !segments_cover(segs.take(i as int), pos))
                    &&& forall|pos: int|
                        cur.from.0 <= pos <= range.to.0 ==> !remainders_cover(rem@, pos)
                            && !segments_cover(segs.take(i as int), pos)
                },
                done ==> {
                    &&& forall|j: int| i <= j < n ==> (#[trigger] segs[j]).0.from.0 > range.to.0
                    &&& forall|pos: int|
                        covers(range, pos) ==> (remainders_cover(rem@, pos) <==> !segments_cover(
                            segs.take(i as int),
                            pos,
                        ))
                },
                stop ==> forall|j: int| i <= j < n ==> (#[trigger] segs[j]).0.from.0 > range.to.0,
            decreases n - i, (if stop { 0int } else { 1int }),
        {
            let e_range: SequenceRange = self.collection[i].0;
            proof {
                assert(segment_wf(segs[i as int]));
            }
            if e_range.to.0 < range.from.0 {
                // Entirely before the arriving range: no overlap, no effect.
                proof {
                    lemma_spec_blocks_take_step(segs, i as int, range, pl);
                    assert(segment_blocks(segs[i as int], range, pl) == Seq::<(
                        Seq<u8>,
                        Seq<u8>,
                        SequenceRange,
                    )>::empty());
                    assert(blocks_model(blocks@) =~= spec_blocks(segs.take(i as int + 1), range, pl));
                    assert forall|pos: int| range.from.0 <= pos <= range.to.0 implies !covers(
                        segs[i as int].0,
                        pos,
                    ) by {}
                    assert forall|pos: int| range.from.0 <= pos <= range.to.0 implies (
                    segments_cover(segs.take(i as int + 1), pos) <==> segments_cover(
                        segs.take(i as int),
                        pos,
                    )) by {
                        lemma_cover_take_step(segs, i as int, pos);
                    }
                }
                i += 1;
            } else if e_range.from.0 > range.to.0 {
                // Past the arriving range: later segments start later still,
                // so none of them overlaps either.
                proof {
                    assert forall|j: int| i <= j < n implies (#[trigger] segs[j]).0.from.0
                        > range.to.0 by {
                        if j > i {
                            assert(segs[i as int].0.to.0 < segs[j].0.from.0);
                        }
                    }
                }
                stop = true;
            } else {
                // Overlapping.
                let ov_from: u32 = if e_range.from.0 >= range.from.0 {
                    e_range.from.0
                } else {
                    range.from.0
                };
                let ov_to: u32 = if e_range.to.0 <= range.to.0 {
                    e_range.to.0
                } else {
                    range.to.0
                };
                let ov = SequenceRange { from: Sequence(ov_from), to: Sequence(ov_to) };
                proof {
                    assert(ov == intersection(e_range, range));
                    assert(e_range.spec_overlaps(range));
                }
                let stored: &PacketManifest<'static> = &self.collection[i].1;
                let winner_p = stored.tcp_payload.sub_payload(ov, Sequence(stored.tcp.seq));
                let loser_p = payload.sub_payload(ov, range.from);
                let winner_s = winner_p.as_slice();
                let loser_s = loser_p.as_slice();
                if !crate::packet::bytes_eq(winner_s, loser_s) {
                    blocks.push(
                        OverlapBlock {
                            winner: vstd::slice::slice_to_vec(winner_s),
                            loser: vstd::slice::slice_to_vec(loser_s),
                            range: ov,
                        },
                    );
                }
                proof {
                    lemma_spec_blocks_take_step(segs, i as int, range, pl);
                    assert(blocks_model(blocks@) =~= spec_blocks(segs.take(i as int + 1), range, pl));
                }
                let ghost old_rem = rem@;
                let ghost old_cur = cur;
                let ghost left_to: u32 = if e_range.from.0 > 0 {
                    (e_range.from.0 - 1) as u32
                } else {
                    0u32
                };
                let ghost left = SequenceRange { from: old_cur.from, to: Sequence(left_to) };
                let ghost had_left = cur.from.0 < e_range.from.0;
                if !done {
                    proof {
                        // The unprocessed segment either starts at or after
                        // the in-flight range, or nothing was stored left of
                        // the arriving range at all.
                        assert(old_cur.from.0 == range.from.0 || segs[i as int].0.from.0
                            >= old_cur.from.0);
                    }
                    if cur.from.0 < e_range.from.0 {
                        rem.push(SequenceRange { from: cur.from, to: Sequence(e_range.from.0 - 1) });
                        proof {
                            assert(rem@ == old_rem.push(left));
                            assert(left.wf());
                            assert(covers(segs[i as int].0, left.to.0 + 1));
                            assert(segments_cover(segs, left.to.0 + 1));
                            assert(is_maximal_run(left, segs, range));
                            assert forall|k: int|
                                0 <= k < rem@.len() implies is_maximal_run(
                                #[trigger] rem@[k],
                                segs,
                                range,
                            ) by {
                                if k < old_rem.len() {
                                    assert(rem@[k] == old_rem[k]);
                                } else {
                                    assert(rem@[k] == left);
                                }
                            }
                        }
                    }
                    proof {
                        assert forall|pos: int| covers(range, pos) implies (remainders_cover(
                            rem@,
                            pos,
                        ) <==> (remainders_cover(old_rem, pos) || (had_left && covers(
                            left,
                            pos,
                        )))) by {
                            if had_left {
                                lemma_rem_push_cover(old_rem, rem@, left, pos);
                            }
                        }
                        assert forall|pos: int| covers(range, pos) implies (segments_cover(
                            segs.take(i as int + 1),
                            pos,
                        ) <==> (segments_cover(segs.take(i as int), pos) || covers(
                            segs[i as int].0,
                            pos,
                        ))) by {
                            lemma_cover_take_step(segs, i as int, pos);
                        }
                        assert(ranges_sorted(rem@));
                        assert(ranges_within(rem@, range));
                    }
                    if e_range.to.0 < range.to.0 {
                        cur = SequenceRange { from: Sequence(e_range.to.0 + 1), to: range.to };
                        proof {
                            assert(covers(segs[i as int].0, cur.from.0 - 1));
                            assert(segments_cover(segs, cur.from.0 - 1));
                            assert forall|pos: int|
                                range.from.0 <= pos < cur.from.0 implies (remainders_cover(
                                rem@,
                                pos,
                            ) <==> !segments_cover(segs.take(i as int + 1), pos)) by {
                                if had_left {
                                    lemma_rem_push_cover(old_rem, rem@, left, pos);
                                } else {
                                    assert(rem@ == old_rem);
                                }
                                lemma_cover_take_step(segs, i as int, pos);
                                if pos < old_cur.from.0 {
                                    assert(old_cur.from.0 != range.from.0);
                                    assert(segs[i as int].0.from.0 >= old_cur.from.0);
                                    assert(!covers(segs[i as int].0, pos));
                                    assert(!(had_left && covers(left, pos)));
                                } else {
                                    assert(!remainders_cover(old_rem, pos));
                                    assert(!segments_cover(segs.take(i as int), pos));
                                    if pos < e_range.from.0 {
                                        assert(had_left && covers(left, pos));
                                        assert(!covers(segs[i as int].0, pos));
                                    } else {
                                        assert(covers(segs[i as int].0, pos));
                                        assert(!(had_left && covers(left, pos)));
                                    }
                                }
                            }
                            assert forall|pos: int|
                                cur.from.0 <= pos <= range.to.0 implies !remainders_cover(rem@, pos)
                                    && !segments_cover(segs.take(i as int + 1), pos) by {
                                assert(!remainders_cover(old_rem, pos));
                                assert(!(had_left && covers(left, pos)));
                            }
                        }
                    } else {
                        done = true;
                        proof {
                            assert forall|j: int| i + 1 <= j < n implies (#[trigger] segs[j]).0.from.0
                                > range.to.0 by {
                                assert(segs[i as int].0.to.0 < segs[j].0.from.0);
                            }
                            assert forall|pos: int| covers(range, pos) implies (remainders_cover(
                                rem@,
                                pos,
                            ) <==> !segments_cover(segs.take(i as int + 1), pos)) by {
                                if pos < old_cur.from.0 {
                                } else {
                                    assert(!remainders_cover(old_rem, pos));
                                    if pos < e_range.from.0 {
                                        assert(had_left && covers(left, pos));
                                        assert(!covers(segs[i as int].0, pos));
                                    } else {
                                        assert(covers(segs[i as int].0, pos));
                                        assert(!(had_left && covers(left, pos)));
                                    }
                                }
                            }
                        }
                    }
                } else {
                    proof {
                        assert(false);
                    }
                }
                i += 1;
            }
        }
        proof {
            assert forall|j: int| i <= j < n implies !(#[trigger] segs[j]).0.spec_overlaps(
                range,
            ) by {
                assert(segs[j].0.from.0 > range.to.0);
            }
            lemma_spec_blocks_rest_noop(segs, i as int, range, pl);
            assert(blocks_model(blocks@) == spec_blocks(segs, range, pl));
            assert forall|pos: int| covers(range, pos) implies (segments_cover(segs, pos)
                <==> segments_cover(segs.take(i as int), pos)) by {
                lemma_cover_rest_noop(segs, i as int, range, pos);
            }
        }
        if !done {
            let ghost old_rem = rem@;
            rem.push(cur);
            proof {
                assert(is_maximal_run(cur, segs, range));
                assert forall|k: int|
                    0 <= k < rem@.len() implies is_maximal_run(#[trigger] rem@[k], segs, range) by {
                    if k < old_rem.len() {
                        assert(rem@[k] == old_rem[k]);
                    } else {
                        assert(rem@[k] == cur);
                    }
                }
                assert forall|pos: int| covers(range, pos) implies (remainders_cover(rem@, pos)
                    <==> (remainders_cover(old_rem, pos) || covers(cur, pos))) by {
                    if remainders_cover(rem@, pos) {
                        let k = choose|k: int|
                            0 <= k < rem@.len() && covers(#[trigger] rem@[k], pos);
                        if k < old_rem.len() {
                            assert(covers(old_rem[k], pos));
                        }
                    }
                    if remainders_cover(old_rem, pos) {
                        let k = choose|k: int|
                            0 <= k < old_rem.len() && covers(#[trigger] old_rem[k], pos);
                        assert(covers(rem@[k], pos));
                    }
                    if covers(cur, pos) {
                        assert(covers(rem@[rem@.len() - 1], pos));
                    }
                }
            }
        }
        (rem, Some(blocks))
    }

    /// Cuts, for each given range, the sub-packet of `packet` that carries
    /// exactly that range's bytes, as an owned copy ready to store.
    pub fn split_packet_into_sub_packets(packet: &PacketManifest, ranges: &Vec<SequenceRange>) -> (r: Vec<StoredSegment>)
        requires
            forall|k: int|
                0 <= k < ranges@.len() ==> (#[trigger] ranges@[k]).wf() && packet.tcp.seq
                    <= ranges@[k].from.0 && ranges@[k].to.0 - packet.tcp.seq
                    < packet.tcp_payload@.len(),
        ensures
            r@.len() == ranges@.len(),
            forall|k: int|
                0 <= k < r@.len() ==> (#[trigger] r@[k]).0 == ranges@[k] && segment_wf(r@[k])
                    && r@[k].1.ip == packet.ip && r@[k].1.tcp == (TcpLayer {
                    seq: ranges@[k].from.0,
                    ..packet.tcp
                }) && r@[k].1.tcp_payload@ == packet.tcp_payload@.subrange(
                    ranges@[k].from.0 - packet.tcp.seq,
                    ranges@[k].to.0 - packet.tcp.seq + 1,
                ),
    {
        let mut r: Vec<StoredSegment> = Vec::new();
        let mut k: usize = 0;
        let n: usize = ranges.len();
        while k < n
            invariant
                n == ranges@.len(),
                0 <= k <= n,
                forall|t: int|
                    0 <= t < ranges@.len() ==> (#[trigger] ranges@[t]).wf() && packet.tcp.seq
                        <= ranges@[t].from.0 && ranges@[t].to.0 - packet.tcp.seq
                        < packet.tcp_payload@.len(),
                r@.len() == k,
                forall|t: int|
                    0 <= t < k ==> (#[trigger] r@[t]).0 == ranges@[t] && segment_wf(r@[t])
                        && r@[t].1.ip == packet.ip && r@[t].1.tcp == (TcpLayer {
                        seq: ranges@[t].from.0,
                        ..packet.tcp
                    }) && r@[t].1.tcp_payload@ == packet.tcp_payload@.subrange(
                        ranges@[t].from.0 - packet.tcp.seq,
                        ranges@[t].to.0 - packet.tcp.seq + 1,
                    ),
            decreases n - k,
        {
            let rg: SequenceRange = ranges[k];
            let piece = packet.tcp_payload.sub_payload(rg, Sequence(packet.tcp.seq));
            let owned = Payload::Owned(vstd::slice::slice_to_vec(piece.as_slice()));
            let sub = PacketManifest {
                ip: packet.ip,
                tcp: TcpLayer { seq: rg.from.0, ..packet.tcp },
                tcp_payload: owned,
            };
            r.push((rg, sub));
            k += 1;
        }
        r
    }

    /// Stores one segment that overlaps nothing stored, at its sorted place.
    fn insert_segment(&mut self, rg: SequenceRange, m: PacketManifest<'static>)
        requires
            old(self).wf(),
            segment_wf((rg, m)),
            forall|j: int|
                0 <= j < old(self).segments().len() ==> !(#[trigger] old(
                    self,
                ).segments()[j]).0.spec_overlaps(rg),
        ensures
            final(self).wf(),
            exists|k: int|
                0 <= k <= old(self).segments().len() && final(self).segments() == old(
                    self,
                ).segments().insert(k, (rg, m)),
            final(self).spec_total_size() == old(self).spec_total_size() + rg.spec_size(),
    {
        let ghost segs = self.segments();
        let mut idx: usize = 0;
        let n: usize = self.collection.len();
        while idx < n && self.collection[idx].0.to.0 < rg.from.0
            invariant
                segs == self.segments(),
                n == segs.len(),
                0 <= idx <= n,
                forall|j: int| 0 <= j < idx ==> (#[trigger] segs[j]).0.to.0 < rg.from.0,
            decreases n - idx,
        {
            idx += 1;
        }
        proof {
            assert(self.wf());
            if idx < n {
                assert(!segs[idx as int].0.spec_overlaps(rg));
                assert(segs[idx as int].0.from.0 > rg.to.0);
                assert forall|j: int| idx <= j < n implies (#[trigger] segs[j]).0.from.0
                    > rg.to.0 by {
                    if j > idx {
                        assert(segs[idx as int].0.to.0 < segs[j].0.from.0);
                        assert(segment_wf(segs[idx as int]));
                    }
                }
            }
            lemma_total_size_bounded(*self);
        }
        let size: u64 = (rg.to.0 - rg.from.0) as u64 + 1;
        self.collection.insert(idx, (rg, m));
        self.total_size = self.total_size + size;
        proof {
            lemma_sum_sizes_insert(segs, idx as int, (rg, m));
            let ns = self.segments();
            assert(ns == segs.insert(idx as int, (rg, m)));
            assert forall|a: int, b: int| 0 <= a < b < ns.len() implies (#[trigger] ns[a]).0.to.0
                < (#[trigger] ns[b]).0.from.0 by {
                if a < idx && b < idx {
                    assert(ns[a] == segs[a] && ns[b] == segs[b]);
                } else if a < idx && b == idx {
                    assert(ns[a] == segs[a]);
                } else if a < idx && b > idx {
                    assert(ns[a] == segs[a] && ns[b] == segs[b - 1]);
                } else if a == idx {
                    assert(ns[b] == segs[b - 1]);
                } else {
                    assert(ns[a] == segs[a - 1] && ns[b] == segs[b - 1]);
                }
            }
            assert forall|a: int| 0 <= a < ns.len() implies segment_wf(#[trigger] ns[a]) by {
                if a < idx {
                    assert(ns[a] == segs[a]);
                } else if a > idx {
                    assert(ns[a] == segs[a - 1]);
                }
            }
        }
    }

    /// Puts the packet's payload into the store.
    ///
    /// Bytes already stored win: only the parts of the arriving payload that
    /// no stored segment covers are stored, and a list of one
    /// [`OverlapBlock`] for every stored segment that overlaps the arriving
    /// one and disagrees with it comes back. A packet with no payload is
    /// ignored.
    ///
    /// The payload must fit the sequence space above the packet's sequence
    /// number without wrapping, so that the key range's start never exceeds
    /// its end.
    pub fn insert(&mut self, packet: PacketManifest<'static>) -> (r: Option<Vec<OverlapBlock>>)
        requires
            old(self).wf(),
            packet.tcp.seq + packet.tcp_payload@.len() <= 0x1_0000_0000,
        ensures
            final(self).wf(),
            packet.tcp_payload@.len() == 0 ==> {
                &&& final(self).segments() == old(self).segments()
                &&& final(self).spec_total_size() == old(self).spec_total_size()
                &&& r matches Some(bs) && bs@.len() == 0
            },
            packet.tcp_payload@.len() > 0 ==> {
                let range = arriving_range(packet);
                &&& r matches Some(bs) && blocks_model(bs@) == spec_blocks(
                    old(self).segments(),
                    range,
                    packet.tcp_payload@,
                )
                &&& forall|pos: int|
                    segments_cover(final(self).segments(), pos) <==> (segments_cover(
                        old(self).segments(),
                        pos,
                    ) || covers(range, pos))
                &&& forall|j: int|
                    0 <= j < old(self).segments().len() ==> final(self).segments().contains(
                        #[trigger] old(self).segments()[j],
                    )
                &&& forall|j: int|
                    0 <= j < final(self).segments().len() ==> old(self).segments().contains(
                        #[trigger] final(self).segments()[j],
                    ) || (is_sub_packet_of(final(self).segments()[j], packet, range)
                        && is_maximal_run(
                        final(self).segments()[j].0,
                        old(self).segments(),
                        range,
                    ))
            },
    {
        if packet.tcp_payload.is_empty() {
            // Ignore empty packets.
            let r: Option<Vec<OverlapBlock>> = if self.construct_overlap_blocks_enabled() {
                Some(Vec::new())
            } else {
                None
            };
            return r;
        }
        let len: usize = packet.tcp_payload.len();
        let range = SequenceRange {
            from: Sequence(packet.tcp.seq),
            to: Sequence(packet.tcp.seq).add((len - 1) as u32),
        };
        proof {
            assert(range == arriving_range(packet));
            assert(range.wf());
        }
        let ghost old_segs = self.segments();
        let ghost pl = packet.tcp_payload@;
        let (not_overlapping, overlap_blocks) = self.overlap_check(range, &packet.tcp_payload);
        let ghost rs = not_overlapping@;
        let mut subs = Self::split_packet_into_sub_packets(&packet, &not_overlapping);
        let ghost subs0 = subs@;
        proof {
            assert forall|t: int| 0 <= t < subs0.len() implies is_sub_packet_of(
                #[trigger] subs0[t],
                packet,
                range,
            ) by {
                assert(subs0[t].0 == rs[t]);
            }
        }
        while subs.len() > 0
            invariant
                self.wf(),
                range.wf(),
                range == arriving_range(packet),
                rs.len() == subs0.len(),
                subs@.len() <= subs0.len(),
                subs@ == subs0.take(subs@.len() as int),
                ranges_sorted(rs),
                ranges_within(rs, range),
                forall|t: int| 0 <= t < subs0.len() ==> (#[trigger] subs0[t]).0 == rs[t],
                forall|t: int| 0 <= t < subs0.len() ==> segment_wf(#[trigger] subs0[t]),
                forall|t: int|
                    0 <= t < subs0.len() ==> is_sub_packet_of(#[trigger] subs0[t], packet, range),
                forall|j: int| 0 <= j < old_segs.len() ==> segment_wf(#[trigger] old_segs[j]),
                forall|pos: int|
                    covers(range, pos) ==> (remainders_cover(rs, pos) <==> !segments_cover(
                        old_segs,
                        pos,
                    )),
                forall|j: int|
                    0 <= j < old_segs.len() ==> self.segments().contains(#[trigger] old_segs[j]),
                forall|j: int|
                    0 <= j < self.segments().len() ==> old_segs.contains(
                        #[trigger] self.segments()[j],
                    ) || (exists|t: int|
                        subs@.len() <= t < subs0.len() && self.segments()[j] == subs0[t]),
                forall|pos: int|
                    segments_cover(self.segments(), pos) <==> (segments_cover(old_segs, pos) || (
                    exists|t: int|
                        subs@.len() <= t < subs0.len() && covers(#[trigger] rs[t], pos))),
            decreases subs.len(),
        {
            let ghost pre = self.segments();
            let ghost m = subs@.len() as int;
            let seg_opt = subs.pop();
            let seg = seg_opt.unwrap();
            let rg: SequenceRange = seg.0;
            let m_pkt: PacketManifest<'static> = seg.1;
            {
                proof {
                    assert(subs@ =~= subs0.take(m - 1));
                    assert((rg, m_pkt) == subs0[m - 1]);
                    assert(rg == rs[m - 1]);
                    // The popped range overlaps nothing currently stored.
                    assert forall|j: int| 0 <= j < pre.len() implies !(#[trigger] pre[j]).0.spec_overlaps(
                        rg,
                    ) by {
                        if pre[j].0.spec_overlaps(rg) {
                            let p0: int = if pre[j].0.from.0 >= rg.from.0 {
                                pre[j].0.from.0 as int
                            } else {
                                rg.from.0 as int
                            };
                            assert(covers(rg, p0));
                            assert(covers(pre[j].0, p0));
                            assert(covers(range, p0));
                            assert(remainders_cover(rs, p0));
                            if old_segs.contains(pre[j]) {
                                let jj = choose|jj: int|
                                    0 <= jj < old_segs.len() && old_segs[jj] == pre[j];
                                assert(covers(old_segs[jj].0, p0));
                                assert(segments_cover(old_segs, p0));
                            } else {
                                let t = choose|t: int|
                                    m <= t < subs0.len() && pre[j] == subs0[t];
                                assert(pre[j].0 == rs[t]);
                                assert(rs[m - 1].to.0 < rs[t].from.0);
                                assert(!rs[t].spec_overlaps(rg));
                            }
                        }
                    }
                }
                self.insert_segment(rg, m_pkt);
                proof {
                    let k = choose|k: int|
                        0 <= k <= pre.len() && self.segments() == pre.insert(k, (rg, m_pkt));
                    assert forall|j: int|
                        0 <= j < old_segs.len() implies self.segments().contains(
                        #[trigger] old_segs[j],
                    ) by {
                        lemma_insert_contains(pre, k, (rg, m_pkt), old_segs[j]);
                    }
                    assert forall|j: int|
                        0 <= j < self.segments().len() implies (old_segs.contains(
                        #[trigger] self.segments()[j],
                    ) || (exists|t: int|
                        subs@.len() <= t < subs0.len() && self.segments()[j] == subs0[t])) by {
                        lemma_insert_contains(pre, k, (rg, m_pkt), self.segments()[j]);
                        if self.segments()[j] == (rg, m_pkt) {
                            assert(self.segments()[j] == subs0[m - 1]);
                        } else {
                            assert(pre.contains(self.segments()[j]));
                            let jj = choose|jj: int|
                                0 <= jj < pre.len() && pre[jj] == self.segments()[j];
                        }
                    }
                    assert forall|pos: int|
                        segments_cover(self.segments(), pos) <==> (segments_cover(old_segs, pos)
                            || (exists|t: int|
                            subs@.len() <= t < subs0.len() && covers(#[trigger] rs[t], pos))) by {
                        lemma_insert_cover(pre, k, (rg, m_pkt), pos);
                        if segments_cover(self.segments(), pos) {
                            if covers((rg, m_pkt).0, pos) {
                                assert(covers(rs[m - 1], pos));
                            }
                        }
                        if exists|t: int|
                            subs@.len() <= t < subs0.len() && covers(#[trigger] rs[t], pos) {
                            let t = choose|t: int|
                                subs@.len() <= t < subs0.len() && covers(#[trigger] rs[t], pos);
                            if t == m - 1 {
                                assert(covers((rg, m_pkt).0, pos));
                            } else {
                                assert(m <= t < subs0.len() && covers(rs[t], pos));
                            }
                        }
                    }
                }
            }
            proof {
                assert(forall|pos: int|
                    segments_cover(self.segments(), pos) <==> (segments_cover(old_segs, pos) || (
                    exists|t: int|
                        subs@.len() <= t < subs0.len() && covers(#[trigger] rs[t], pos))));
            }
        }
        proof {
            assert(subs0.take(0) =~= Seq::<StoredSegment>::empty());
            assert forall|j: int|
                0 <= j < self.segments().len() && !old_segs.contains(
                    #[trigger] self.segments()[j],
                ) implies (is_sub_packet_of(self.segments()[j], packet, range) && is_maximal_run(
                self.segments()[j].0,
                old_segs,
                range,
            )) by {
                let t = choose|t: int|
                    subs@.len() <= t < subs0.len() && self.segments()[j] == subs0[t];
                assert(subs0[t].0 == rs[t]);
                assert(is_maximal_run(rs[t], old_segs, range));
            }
            assert forall|pos: int| segments_cover(self.segments(), pos) <==> (segments_cover(
                old_segs,
                pos,
            ) || covers(range, pos)) by {
                if covers(range, pos) {
                    if !segments_cover(old_segs, pos) {
                        assert(remainders_cover(rs, pos));
                        let t = choose|t: int| 0 <= t < rs.len() && covers(#[trigger] rs[t], pos);
                    }
                } else {
                    assert forall|t: int| 0 <= t < rs.len() implies !covers(
                        #[trigger] rs[t],
                        pos,
                    ) by {
                        assert(rs[t].wf() && range.from.0 <= rs[t].from.0 && rs[t].to.0
                            <= range.to.0);
                    }
                }
            }
        }
        overlap_blocks
    }

    /// The stored key ranges, in storage order.
    pub fn stored_ranges(&self) -> (r: Vec<SequenceRange>)
        ensures
            r@.len() == self.segments().len(),
            forall|i: int| 0 <= i < r@.len() ==> r@[i] == self.segments()[i].0,
    {
        let mut r: Vec<SequenceRange> = Vec::new();
        let mut i: usize = 0;
        while i < self.collection.len()
            invariant
                i <= self.collection.len(),
                r@.len() == i,
                forall|k: int| 0 <= k < i ==> r@[k] == self.collection@[k].0,
            decreases self.collection.len() - i,
        {
            r.push(self.collection[i].0);
            i += 1;
        }
        r
    }
}

/// Inserting a packet that overlaps nothing stored yields no overlap
/// blocks; together with [`OrderedCoalesce::wf`], which [`OrderedCoalesce::insert`]
/// preserves, the stored ranges stay sorted and non-overlapping whatever the
/// insertion order.
pub proof fn lemma_no_overlap_no_blocks(
    s: Seq<StoredSegment>,
    range: SequenceRange,
    payload: Seq<u8>,
)
    requires
        forall|j: int| 0 <= j < s.len() ==> !(#[trigger] s[j]).0.spec_overlaps(range),
    ensures
        spec_blocks(s, range, payload).len() == 0,
    decreases s.len(),
{
    if s.len() > 0 {
        assert(segment_blocks(s[0], range, payload) == Seq::<(
            Seq<u8>,
            Seq<u8>,
            SequenceRange,
        )>::empty());
        assert(forall|j: int|
            0 <= j < s.drop_first().len() ==> !(#[trigger] s.drop_first()[j]).0.spec_overlaps(
                range,
            ));
        lemma_no_overlap_no_blocks(s.drop_first(), range, payload);
    }
}

/// Inserting a packet whose payload agrees byte for byte with every stored
/// segment it overlaps yields no overlap blocks.
pub proof fn lemma_matching_payload_no_blocks(
    s: Seq<StoredSegment>,
    range: SequenceRange,
    payload: Seq<u8>,
)
    requires
        forall|j: int|
            0 <= j < s.len() && (#[trigger] s[j]).0.spec_overlaps(range) ==> stored_overlap_bytes(
                s[j],
                range,
            ) == arriving_overlap_bytes(s[j], range, payload),
    ensures
        spec_blocks(s, range, payload).len() == 0,
    decreases s.len(),
{
    if s.len() > 0 {
        assert(segment_blocks(s[0], range, payload) == Seq::<(
            Seq<u8>,
            Seq<u8>,
            SequenceRange,
        )>::empty());
        assert(forall|j: int|
            0 <= j < s.drop_first().len() ==> s.drop_first()[j] == s[j + 1]);
        lemma_matching_payload_no_blocks(s.drop_first(), range, payload);
    }
}

/// The expected overlap report: one entry for each stored segment that
/// overlaps the arriving range and disagrees with it, in storage order, with
/// the stored bytes as the winner and the arriving bytes as the loser.
pub open spec fn disagreeing_blocks(
    s: Seq<StoredSegment>,
    range: SequenceRange,
    payload: Seq<u8>,
) -> Seq<(Seq<u8>, Seq<u8>, SequenceRange)> {
    s.filter(
        |e: StoredSegment|
            e.0.spec_overlaps(range) && stored_overlap_bytes(e, range) != arriving_overlap_bytes(
                e,
                range,
                payload,
            ),
    ).map_values(
        |e: StoredSegment|
            (
                stored_overlap_bytes(e, range),
                arriving_overlap_bytes(e, range, payload),
                intersection(e.0, range),
            ),
    )
}

/// An insert reports exactly one overlap block per stored segment whose
/// overlap with the arriving packet disagrees: the winner is the stored
/// bytes of the overlap, the loser the arriving bytes, the range the
/// intersection.
pub proof fn lemma_one_block_per_disagreeing_overlap(
    s: Seq<StoredSegment>,
    range: SequenceRange,
    payload: Seq<u8>,
)
    ensures
        spec_blocks(s, range, payload) == disagreeing_blocks(s, range, payload),
    decreases s.len(),
{
    let pred = |e: StoredSegment|
        e.0.spec_overlaps(range) && stored_overlap_bytes(e, range) != arriving_overlap_bytes(
            e,
            range,
            payload,
        );
    let f = |e: StoredSegment|
        (
            stored_overlap_bytes(e, range),
            arriving_overlap_bytes(e, range, payload),
            intersection(e.0, range),
        );
    if s.len() == 0 {
        assert(s.filter(pred) == s);
        assert(disagreeing_blocks(s, range, payload) =~= Seq::<(
            Seq<u8>,
            Seq<u8>,
            SequenceRange,
        )>::empty());
    } else {
        let d = s.drop_last();
        let e = s.last();
        lemma_one_block_per_disagreeing_overlap(d, range, payload);
        assert(d.push(e) =~= s);
        lemma_spec_blocks_push(d, e, range, payload);
        reveal_with_fuel(Seq::filter, 2);
        if pred(e) {
            assert(s.filter(pred) == d.filter(pred).push(e));
            assert(segment_blocks(e, range, payload) =~= seq![f(e)]);
            assert(d.filter(pred).push(e).map_values(f) =~= d.filter(pred).map_values(f).push(
                f(e),
            ));
            assert(spec_blocks(s, range, payload) =~= disagreeing_blocks(s, range, payload));
        } else {
            assert(s.filter(pred) == d.filter(pred));
            assert(segment_blocks(e, range, payload) =~= Seq::<(
                Seq<u8>,
                Seq<u8>,
                SequenceRange,
            )>::empty());
            assert(spec_blocks(s, range, payload) =~= disagreeing_blocks(s, range, payload));
        }
    }
}

/// The key sizes of sorted, pairwise non-overlapping, well-formed segments
/// sum to no more than the span from the first key's start to the last key's
/// end.
proof fn lemma_sum_sizes_bounded(s: Seq<StoredSegment>)
    requires
        forall|i: int| 0 <= i < s.len() ==> segment_wf(#[trigger] s[i]),
        forall|i: int, j: int|
            0 <= i < j < s.len() ==> (#[trigger] s[i]).0.to.0 < (#[trigger] s[j]).0.from.0,
        s.len() > 0,
    ensures
        sum_sizes(s) <= s[s.len() - 1].0.to.0 - s[0].0.from.0 + 1,
    decreases s.len(),
{
    if s.len() == 1 {
        assert(s.drop_first().len() == 0);
        assert(sum_sizes(s.drop_first()) == 0);
        assert(sum_sizes(s) == s[0].0.spec_size());
    } else {
        let t = s.drop_first();
        assert(forall|i: int| 0 <= i < t.len() ==> segment_wf(#[trigger] t[i]));
        assert(forall|i: int, j: int|
            0 <= i < j < t.len() ==> (#[trigger] t[i]).0.to.0 < (#[trigger] t[j]).0.from.0);
        lemma_sum_sizes_bounded(t);
        assert(t[t.len() - 1] == s[s.len() - 1]);
        assert(t[0] == s[1]);
        assert(s[0].0.to.0 < s[1].0.from.0);
        assert(sum_sizes(s) == s[0].0.spec_size() + sum_sizes(t));
        assert(sum_sizes(t) <= t[t.len() - 1].0.to.0 - t[0].0.from.0 + 1);
    }
}

/// The total size of a well-formed store never exceeds the size of the whole
/// 32-bit sequence space.
proof fn lemma_total_size_bounded(c: OrderedCoalesce)
    requires
        c.wf(),
    ensures
        c.spec_total_size() <= 0x1_0000_0000,
{
    if c.segments().len() > 0 {
        lemma_sum_sizes_bounded(c.segments());
    }
}

} // verus!


