//! Per-pixel change records between two states of a raster, and what
//! replaying them does.

use vstd::prelude::*;
use crate::color::Color;

verus! {

/// One changed pixel: its position in scan order and its color on either
/// side of the change.
#[derive(Clone, Copy, Debug, PartialEq, Eq, Structural)]
pub struct PixelDelta {
    pub index: usize,
    pub before: Color,
    pub after: Color,
}

/// The temporal direction in which a diff is replayed.
#[derive(Clone, Copy, Debug, PartialEq, Eq, Structural)]
pub enum Direction {
    /// Towards the later state: every delta writes its `after` color.
    Forward,
    /// Towards the earlier state: every delta writes its `before` color.
    Reverse,
}

/// The changes between two states of a raster.
#[derive(Debug, PartialEq, Eq)]
pub enum Diff {
    /// One delta per changed pixel, by ascending pixel index. A pixel
    /// without a delta did not change.
    Sparse(Vec<PixelDelta>),
}

impl View for Diff {
    type V = Seq<PixelDelta>;

    open spec fn view(&self) -> Seq<PixelDelta> {
        match self {
            Diff::Sparse(deltas) => deltas@,
        }
    }
}

impl Diff {
    /// The deltas ascend strictly by pixel index, so that no two of them
    /// are about the same pixel.
    pub open spec fn wf(&self) -> bool {
        ascending(self@)
    }

    /// The deltas of the diff, in their order.
    pub fn deltas(&self) -> (deltas: &Vec<PixelDelta>)
        ensures
            deltas@ == self@,
    {
        match self {
            Diff::Sparse(deltas) => deltas,
        }
    }
}

impl PixelDelta {
    /// The color that replaying this delta in `direction` writes.
    pub open spec fn color(self, direction: Direction) -> Color {
        match direction {
            Direction::Forward => self.after,
            Direction::Reverse => self.before,
        }
    }

    /// The delta records what pixel `index` held in `before` and in `after`,
    /// and the two colors differ.
    pub open spec fn faithful(self, before: Seq<Color>, after: Seq<Color>) -> bool {
        &&& self.index < before.len()
        &&& self.before == before[self.index as int]
        &&& self.after == after[self.index as int]
        &&& self.before != self.after
    }
}

/// The deltas ascend strictly by pixel index.
pub open spec fn ascending(deltas: Seq<PixelDelta>) -> bool {
    forall|j: int, k: int|
        0 <= j < k < deltas.len() ==> (#[trigger] deltas[j]).index < (#[trigger] deltas[k]).index
}

/// Some delta of `deltas` is about pixel `i`.
pub open spec fn covers(deltas: Seq<PixelDelta>, i: int) -> bool {
    exists|k: int| 0 <= k < deltas.len() && #[trigger] deltas[k].index == i
}

/// `deltas` is the diff from `before` to `after`: every delta is faithful,
/// the deltas ascend strictly by pixel index, and every pixel whose color
/// differs has a delta.
pub open spec fn records_changes(
    deltas: Seq<PixelDelta>,
    before: Seq<Color>,
    after: Seq<Color>,
) -> bool {
    &&& forall|k: int| 0 <= k < deltas.len() ==> (#[trigger] deltas[k]).faithful(before, after)
    &&& ascending(deltas)
    &&& forall|i: int| 0 <= i < before.len() && before[i] != after[i] ==> covers(deltas, i)
}

/// The pixels after replaying `deltas` in their order over `pixels`. Each
/// delta writes one color at its index; a delta whose index lies past the
/// end writes nothing.
pub open spec fn replay(pixels: Seq<Color>, deltas: Seq<PixelDelta>, direction: Direction) -> Seq<
    Color,
>
    decreases deltas.len(),
{
    if deltas.len() == 0 {
        pixels
    } else {
        let earlier = replay(pixels, deltas.drop_last(), direction);
        let delta = deltas.last();
        if delta.index < pixels.len() {
            earlier.update(delta.index as int, delta.color(direction))
        } else {
            earlier
        }
    }
}

/// The color that a replay of `deltas` leaves at pixel `i`: that of the last
/// delta about `i`, or `None` when no delta is about it.
pub open spec fn last_write(deltas: Seq<PixelDelta>, direction: Direction, i: int) -> Option<Color>
    decreases deltas.len(),
{
    if deltas.len() == 0 {
        None
    } else if deltas.last().index == i {
        Some(deltas.last().color(direction))
    } else {
        last_write(deltas.drop_last(), direction, i)
    }
}

/// A replay keeps the number of pixels.
pub proof fn lemma_replay_len(pixels: Seq<Color>, deltas: Seq<PixelDelta>, direction: Direction)
    ensures
        replay(pixels, deltas, direction).len() == pixels.len(),
    decreases deltas.len(),
{
    if deltas.len() > 0 {
        lemma_replay_len(pixels, deltas.drop_last(), direction);
    }
}

/// After a replay every pixel holds the color of the last delta about it,
/// and a pixel that no delta is about holds what it held before.
pub proof fn lemma_replay_pixel(
    pixels: Seq<Color>,
    deltas: Seq<PixelDelta>,
    direction: Direction,
    i: int,
)
    requires
        0 <= i < pixels.len(),
    ensures
        replay(pixels, deltas, direction)[i] == match last_write(deltas, direction, i) {
            Some(color) => color,
            None => pixels[i],
        },
    decreases deltas.len(),
{
    if deltas.len() > 0 {
        lemma_replay_len(pixels, deltas.drop_last(), direction);
        lemma_replay_pixel(pixels, deltas.drop_last(), direction, i);
    }
}

/// A replay writes at pixel `i` exactly when some delta is about `i`, and
/// what it leaves there is the color of one of those deltas.
pub proof fn lemma_last_write(deltas: Seq<PixelDelta>, direction: Direction, i: int)
    ensures
        last_write(deltas, direction, i).is_some() <==> covers(deltas, i),
        last_write(deltas, direction, i).is_some() ==> exists|k: int|
            0 <= k < deltas.len() && #[trigger] deltas[k].index == i && last_write(
                deltas,
                direction,
                i,
            ) == Some(deltas[k].color(direction)),
    decreases deltas.len(),
{
    if deltas.len() > 0 {
        let earlier = deltas.drop_last();
        let last = deltas.len() - 1;
        lemma_last_write(earlier, direction, i);
        if deltas.last().index == i {
            assert(deltas[last].index == i);
        } else {
            if covers(deltas, i) {
                let k = choose|k: int| 0 <= k < deltas.len() && #[trigger] deltas[k].index == i;
                assert(earlier[k].index == i);
            }
            if last_write(earlier, direction, i).is_some() {
                let k = choose|k: int|
                    0 <= k < earlier.len() && #[trigger] earlier[k].index == i && last_write(
                        earlier,
                        direction,
                        i,
                    ) == Some(earlier[k].color(direction));
                assert(deltas[k].index == i);
            }
        }
    }
}

/// Pixels that no delta is about are never touched by a replay.
pub proof fn lemma_replay_untouched(
    pixels: Seq<Color>,
    deltas: Seq<PixelDelta>,
    direction: Direction,
    i: int,
)
    requires
        0 <= i < pixels.len(),
        !covers(deltas, i),
    ensures
        replay(pixels, deltas, direction)[i] == pixels[i],
{
    lemma_last_write(deltas, direction, i);
    lemma_replay_pixel(pixels, deltas, direction, i);
}

/// Replaying the diff from `before` to `after` forward over `before` gives
/// `after`, and replaying it in reverse over `after` gives `before`.
pub proof fn lemma_diff_round_trip(
    deltas: Seq<PixelDelta>,
    before: Seq<Color>,
    after: Seq<Color>,
)
    requires
        before.len() == after.len(),
        records_changes(deltas, before, after),
    ensures
        replay(before, deltas, Direction::Forward) == after,
        replay(after, deltas, Direction::Reverse) == before,
{
    lemma_replay_len(before, deltas, Direction::Forward);
    lemma_replay_len(after, deltas, Direction::Reverse);
    assert forall|i: int| 0 <= i < before.len() implies replay(
        before,
        deltas,
        Direction::Forward,
    )[i] == after[i] && replay(after, deltas, Direction::Reverse)[i] == before[i] by {
        lemma_replay_pixel(before, deltas, Direction::Forward, i);
        lemma_replay_pixel(after, deltas, Direction::Reverse, i);
        lemma_last_write(deltas, Direction::Forward, i);
        lemma_last_write(deltas, Direction::Reverse, i);
    }
    assert(replay(before, deltas, Direction::Forward) =~= after);
    assert(replay(after, deltas, Direction::Reverse) =~= before);
}

/// A diff holds exactly one delta for each pixel whose color differs and
/// none for a pixel whose color is the same; between identical states it is
/// empty.
pub proof fn lemma_diff_minimal(deltas: Seq<PixelDelta>, before: Seq<Color>, after: Seq<Color>)
    requires
        before.len() == after.len(),
        records_changes(deltas, before, after),
    ensures
        forall|i: int|
            0 <= i < before.len() ==> (before[i] != after[i] <==> #[trigger] covers(deltas, i)),
        forall|j: int, k: int|
            0 <= j < deltas.len() && 0 <= k < deltas.len() && j != k ==> (
            #[trigger] deltas[j]).index != (#[trigger] deltas[k]).index,
        before == after ==> deltas.len() == 0,
{
    assert forall|i: int| 0 <= i < before.len() && #[trigger] covers(deltas, i) implies before[i]
        != after[i] by {
        let k = choose|k: int| 0 <= k < deltas.len() && #[trigger] deltas[k].index == i;
        assert(deltas[k].faithful(before, after));
    }
    assert forall|j: int, k: int|
        0 <= j < deltas.len() && 0 <= k < deltas.len() && j != k implies (
    #[trigger] deltas[j]).index != (#[trigger] deltas[k]).index by {
        if j < k {
            assert(deltas[j].index < deltas[k].index);
        } else {
            assert(deltas[k].index < deltas[j].index);
        }
    }
    if before == after && deltas.len() > 0 {
        assert(deltas[0].faithful(before, after));
    }
}

/// Two states have one diff only.
pub proof fn lemma_diff_unique(
    first: Seq<PixelDelta>,
    second: Seq<PixelDelta>,
    before: Seq<Color>,
    after: Seq<Color>,
)
    requires
        before.len() == after.len(),
        records_changes(first, before, after),
        records_changes(second, before, after),
    ensures
        first == second,
    decreases first.len() + second.len(),
{
    if first.len() == 0 || second.len() == 0 {
        if first.len() > 0 {
            assert(first[0].faithful(before, after));
            assert(covers(second, first[0].index as int));
        }
        if second.len() > 0 {
            assert(second[0].faithful(before, after));
            assert(covers(first, second[0].index as int));
        }
        assert(first =~= second);
    } else {
        let a = first.last();
        let b = second.last();
        assert(first[first.len() - 1].faithful(before, after));
        assert(second[second.len() - 1].faithful(before, after));
        assert(covers(second, a.index as int));
        assert(covers(first, b.index as int));
        let ka = choose|k: int| 0 <= k < second.len() && #[trigger] second[k].index == a.index;
        let kb = choose|k: int| 0 <= k < first.len() && #[trigger] first[k].index == b.index;
        assert(second[ka].index <= b.index);
        assert(first[kb].index <= a.index);
        assert(a.index == b.index);
        assert(a == b);
        // Below the shared last index the two diffs record the same prefix.
        let limit = a.index as int;
        let cut_before = before.take(limit);
        let cut_after = after.take(limit);
        lemma_prefix_records(first, before, after);
        lemma_prefix_records(second, before, after);
        lemma_diff_unique(first.drop_last(), second.drop_last(), cut_before, cut_after);
        assert(first =~= first.drop_last().push(a));
        assert(second =~= second.drop_last().push(b));
    }
}

/// Without its last delta, a diff is the diff of the two states cut off at
/// that delta's pixel.
proof fn lemma_prefix_records(deltas: Seq<PixelDelta>, before: Seq<Color>, after: Seq<Color>)
    requires
        deltas.len() > 0,
        before.len() == after.len(),
        records_changes(deltas, before, after),
    ensures
        records_changes(
            deltas.drop_last(),
            before.take(deltas.last().index as int),
            after.take(deltas.last().index as int),
        ),
{
    let last = deltas.len() - 1;
    let limit = deltas.last().index as int;
    let shorter = deltas.drop_last();
    let cut_before = before.take(limit);
    let cut_after = after.take(limit);
    assert(deltas[last].faithful(before, after));
    assert forall|k: int| 0 <= k < shorter.len() implies (#[trigger] shorter[k]).faithful(
        cut_before,
        cut_after,
    ) by {
        assert(deltas[k].faithful(before, after));
        assert(deltas[k].index < deltas[last].index);
    }
    assert forall|j: int, k: int| 0 <= j < k < shorter.len() implies (#[trigger] shorter[j]).index
        < (#[trigger] shorter[k]).index by {
        assert(deltas[j].index < deltas[k].index);
    }
    assert forall|i: int|
        0 <= i < cut_before.len() && cut_before[i] != cut_after[i] implies covers(shorter, i) by {
        assert(before[i] != after[i]);
        assert(covers(deltas, i));
        let k = choose|k: int| 0 <= k < deltas.len() && #[trigger] deltas[k].index == i;
        assert(k != last);
        assert(shorter[k].index == i);
    }
}

/// Two replays whose deltas are about disjoint sets of pixels give the same
/// pixels in either order.
pub proof fn lemma_disjoint_replays_commute(
    pixels: Seq<Color>,
    first: Seq<PixelDelta>,
    first_direction: Direction,
    second: Seq<PixelDelta>,
    second_direction: Direction,
)
    requires
        forall|j: int, k: int|
            0 <= j < first.len() && 0 <= k < second.len() ==> (#[trigger] first[j]).index != (
            #[trigger] second[k]).index,
    ensures
        replay(replay(pixels, first, first_direction), second, second_direction) == replay(
            replay(pixels, second, second_direction),
            first,
            first_direction,
        ),
{
    let after_first = replay(pixels, first, first_direction);
    let after_second = replay(pixels, second, second_direction);
    let one = replay(after_first, second, second_direction);
    let other = replay(after_second, first, first_direction);
    lemma_replay_len(pixels, first, first_direction);
    lemma_replay_len(pixels, second, second_direction);
    lemma_replay_len(after_first, second, second_direction);
    lemma_replay_len(after_second, first, first_direction);
    assert forall|i: int| 0 <= i < pixels.len() implies one[i] == other[i] by {
        lemma_replay_pixel(pixels, first, first_direction, i);
        lemma_replay_pixel(pixels, second, second_direction, i);
        lemma_replay_pixel(after_first, second, second_direction, i);
        lemma_replay_pixel(after_second, first, first_direction, i);
        lemma_last_write(first, first_direction, i);
        lemma_last_write(second, second_direction, i);
        if covers(first, i) && covers(second, i) {
            let j = choose|j: int| 0 <= j < first.len() && #[trigger] first[j].index == i;
            let k = choose|k: int| 0 <= k < second.len() && #[trigger] second[k].index == i;
            assert(first[j].index != second[k].index);
        }
    }
    assert(one =~= other);
}

} // verus!
