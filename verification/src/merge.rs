//! Vertical rectangle merging: a plate that recurs unchanged in consecutive
//! rows grows into one rectangle, which is finished in the first row that
//! lacks the plate.

use vstd::prelude::*;

use crate::geometry::{finished_before, in_finishing_order, Plate, Rect};
use crate::open_rects::{holds, keyed, plate_of, OpenRects};

verus! {

/// Whether row `y` exists and holds the plate.
pub open spec fn row_has(rows: Seq<Vec<Plate>>, y: int, p: Plate) -> bool {
    0 <= y < rows.len() && rows[y]@.contains(p)
}

/// The rectangle has grown up to row `top`: every row from its bottom to
/// `top` holds its plate, and the row under its bottom does not.
pub open spec fn grown_to(rows: Seq<Vec<Plate>>, rect: Rect, top: int) -> bool {
    &&& rect.top == top
    &&& rect.bottom <= rect.top
    &&& forall|y: int| rect.bottom <= y <= rect.top ==> #[trigger] row_has(rows, y, rect.plate())
    &&& !row_has(rows, rect.bottom - 1, rect.plate())
}

/// The rectangle is a maximal stack of one plate: every row from its bottom
/// to its top holds the plate, the row under it and the row above it do not.
pub open spec fn stacked(rows: Seq<Vec<Plate>>, rect: Rect) -> bool {
    grown_to(rows, rect, rect.top as int) && !row_has(rows, rect.top + 1, rect.plate())
}

/// `rects` lists every maximal stack of `rows` once.
pub open spec fn is_merge_of(rows: Seq<Vec<Plate>>, rects: Seq<Rect>) -> bool {
    &&& rects.no_duplicates()
    &&& forall|r: Rect| #[trigger] rects.contains(r) <==> stacked(rows, r)
}

/// The plates stand in the order of their left ends.
pub open spec fn left_to_right(plates: Seq<Plate>) -> bool {
    forall|i: int, j: int| 0 <= i < j < plates.len() ==> plates[i].left < plates[j].left
}

/// Every row lists its plates from left to right.
pub open spec fn rows_left_to_right(rows: Seq<Vec<Plate>>) -> bool {
    forall|y: int| 0 <= y < rows.len() ==> left_to_right(#[trigger] rows[y]@)
}

/// Two rectangles on the same plate that have grown to the same row are the
/// same rectangle.
pub proof fn lemma_grown_unique(rows: Seq<Vec<Plate>>, a: Rect, b: Rect, top: int)
    requires
        grown_to(rows, a, top),
        grown_to(rows, b, top),
        a.plate() == b.plate(),
    ensures
        a == b,
{
    if a.bottom < b.bottom {
        assert(row_has(rows, b.bottom - 1, a.plate()));
    } else if b.bottom < a.bottom {
        assert(row_has(rows, a.bottom - 1, b.plate()));
    }
}

/// Whether the row holds the plate.
pub fn row_contains(row: &Vec<Plate>, plate: Plate) -> (found: bool)
    ensures
        found == row@.contains(plate),
{
    let mut i: usize = 0;
    while i < row.len()
        invariant
            i <= row.len(),
            forall|j: int| 0 <= j < i ==> row[j] != plate,
        decreases row.len() - i,
    {
        if row[i] == plate {
            return true;
        }
        i = i + 1;
    }
    false
}

/// The plate is in `prev` and missing from `cur`: a rectangle on it ends.
pub open spec fn ends_here(prev: Seq<Plate>, cur: Seq<Plate>, p: Plate) -> bool {
    prev.contains(p) && !cur.contains(p)
}

/// Finishes the rectangles whose plate is in the previous row and missing
/// from the current one: each leaves the map and is appended to `out`.
fn close_finished(
    open: &mut OpenRects,
    prev: &Vec<Plate>,
    cur: &Vec<Plate>,
    out: &mut Vec<Rect>,
)
    requires
        keyed(old(open)@),
        old(out)@.no_duplicates(),
        forall|r: Rect| old(out)@.contains(r) ==> !holds(old(open)@, r),
    ensures
        keyed(final(open)@),
        forall|k: (i32, i32)| #[trigger]
            final(open)@.contains_key(k) <==> old(open)@.contains_key(k) && !ends_here(
                prev@,
                cur@,
                plate_of(k),
            ),
        forall|k: (i32, i32)| #[trigger]
            final(open)@.contains_key(k) ==> final(open)@[k] == old(open)@[k],
        final(out)@.no_duplicates(),
        forall|r: Rect| #[trigger]
            final(out)@.contains(r) <==> old(out)@.contains(r) || (holds(old(open)@, r)
                && ends_here(prev@, cur@, r.plate())),
        old(out)@.len() <= final(out)@.len(),
        final(out)@.subrange(0, old(out)@.len() as int) == old(out)@,
        left_to_right(prev@) ==> forall|a: int, b: int|
            old(out)@.len() <= a < b < final(out)@.len() ==> final(out)@[a].left
                < final(out)@[b].left,
{
    let mut i: usize = 0;
    while i < prev.len()
        invariant
            i <= prev.len(),
            old(out)@.len() <= out@.len(),
            out@.subrange(0, old(out)@.len() as int) == old(out)@,
            left_to_right(prev@) ==> forall|a: int, b: int|
                old(out)@.len() <= a < b < out@.len() ==> out@[a].left < out@[b].left,
            left_to_right(prev@) ==> forall|a: int, m: int|
                old(out)@.len() <= a < out@.len() && i <= m < prev.len() ==> out@[a].left
                    < prev@[m].left,
            keyed(old(open)@),
            keyed(open@),
            forall|k: (i32, i32)| #[trigger]
                open@.contains_key(k) <==> old(open)@.contains_key(k) && !ends_here(
                    prev@.take(i as int),
                    cur@,
                    plate_of(k),
                ),
            forall|k: (i32, i32)| #[trigger] open@.contains_key(k) ==> open@[k] == old(open)@[k],
            out@.no_duplicates(),
            forall|r: Rect| out@.contains(r) ==> !holds(open@, r),
            forall|r: Rect| #[trigger]
                out@.contains(r) <==> old(out)@.contains(r) || (holds(old(open)@, r) && ends_here(
                    prev@.take(i as int),
                    cur@,
                    r.plate(),
                )),
        decreases prev.len() - i,
    {
        let plate = prev[i];
        let ghost open_before = open@;
        let ghost out_before = out@;
        proof {
            assert(prev@.take(i + 1) == prev@.take(i as int).push(plate));
            assert forall|p: Plate|
                prev@.take(i + 1).contains(p) <==> p == plate || prev@.take(i as int).contains(
                    p,
                ) by {
                vstd::seq_lib::lemma_seq_contains_after_push(prev@.take(i as int), plate, p);
            }
        }
        if !row_contains(cur, plate) {
            if let Some(rect) = open.take(plate) {
                out.push(rect);
                proof {
                    assert(holds(open_before, rect));
                    assert(rect.left == plate.left);
                    assert(out@ == out_before.push(rect));
                    assert(out@.subrange(0, old(out)@.len() as int) == out_before.subrange(
                        0,
                        old(out)@.len() as int,
                    ));
                    assert forall|r: Rect| #[trigger]
                        out@.contains(r) <==> out_before.contains(r) || r == rect by {
                        vstd::seq_lib::lemma_seq_contains_after_push(out_before, rect, r);
                    }
                }
            }
        }
        proof {
            assert forall|k: (i32, i32)| #[trigger]
                open@.contains_key(k) <==> old(open)@.contains_key(k) && !ends_here(
                    prev@.take(i + 1),
                    cur@,
                    plate_of(k),
                ) by {
                assert(plate_of(k) == plate <==> k == plate.pair());
            }
            assert forall|r: Rect| #[trigger]
                out@.contains(r) <==> old(out)@.contains(r) || (holds(old(open)@, r) && ends_here(
                    prev@.take(i + 1),
                    cur@,
                    r.plate(),
                )) by {
                assert(plate_of(r.plate().pair()) == r.plate());
            }
        }
        i = i + 1;
    }
    proof {
        assert(prev@.take(prev.len() as int) == prev@);
    }
}

/// The rectangle that stands on plate `p` once row `y`, which holds `p`, is
/// merged: the one in progress grown by a row, or a new one of that row alone.
pub open spec fn risen(open: Map<(i32, i32), Rect>, p: Plate, y: i32) -> Rect {
    if open.contains_key(p.pair()) {
        Rect { top: y, ..open[p.pair()] }
    } else {
        Rect { left: p.left, right: p.right, top: y, bottom: y }
    }
}

/// Merges the current row into the map: the rectangle in progress on each of
/// its plates grows to row `y`, and a plate without one starts a rectangle
/// there.
fn extend_or_open(open: &mut OpenRects, cur: &Vec<Plate>, y: i32)
    requires
        keyed(old(open)@),
    ensures
        keyed(final(open)@),
        forall|k: (i32, i32)| #[trigger]
            final(open)@.contains_key(k) <==> old(open)@.contains_key(k) || cur@.contains(
                plate_of(k),
            ),
        forall|k: (i32, i32)| #[trigger]
            final(open)@.contains_key(k) ==> final(open)@[k] == if cur@.contains(plate_of(k)) {
                risen(old(open)@, plate_of(k), y)
            } else {
                old(open)@[k]
            },
{
    let mut i: usize = 0;
    while i < cur.len()
        invariant
            i <= cur.len(),
            keyed(old(open)@),
            keyed(open@),
            forall|k: (i32, i32)| #[trigger]
                open@.contains_key(k) <==> old(open)@.contains_key(k) || cur@.take(
                    i as int,
                ).contains(plate_of(k)),
            forall|k: (i32, i32)| #[trigger]
                open@.contains_key(k) ==> open@[k] == if cur@.take(i as int).contains(plate_of(k)) {
                    risen(old(open)@, plate_of(k), y)
                } else {
                    old(open)@[k]
                },
        decreases cur.len() - i,
    {
        let plate = cur[i];
        let ghost open_before = open@;
        proof {
            assert(cur@.take(i + 1) == cur@.take(i as int).push(plate));
            assert forall|p: Plate|
                cur@.take(i + 1).contains(p) <==> p == plate || cur@.take(i as int).contains(
                    p,
                ) by {
                vstd::seq_lib::lemma_seq_contains_after_push(cur@.take(i as int), plate, p);
            }
            assert(plate_of(plate.pair()) == plate);
        }
        let rect = match open.get(plate) {
            Some(rect) => Rect { top: y, ..rect },
            None => Rect { left: plate.left, right: plate.right, top: y, bottom: y },
        };
        open.put(rect);
        proof {
            assert(rect == risen(old(open)@, plate, y));
            assert(open@ == open_before.insert(plate.pair(), rect));
            assert forall|k: (i32, i32)| #[trigger] open@.contains_key(k) implies open@[k] == (
                if cur@.take(i + 1).contains(plate_of(k)) {
                    risen(old(open)@, plate_of(k), y)
                } else {
                    old(open)@[k]
                }
            ) by {
                assert(plate_of(k) == plate <==> k == plate.pair());
            }
            assert forall|k: (i32, i32)| #[trigger]
                open@.contains_key(k) <==> old(open)@.contains_key(k) || cur@.take(i + 1).contains(
                    plate_of(k),
                ) by {
                assert(plate_of(k) == plate <==> k == plate.pair());
            }
        }
        i = i + 1;
    }
    proof {
        assert(cur@.take(cur.len() as int) == cur@);
    }
}

/// Merges the plates of consecutive rows into rectangles.
///
/// Row `y` of the input holds the plates of row `y`. The rows are taken from
/// row 0 up, and one empty row is merged behind the last, so that the
/// rectangles that reach the top row are finished too. A rectangle grows only
/// while the very same plate recurs: a plate that shifts, widens or splits
/// ends the rectangle under it and starts another.
pub fn merge_rows(rows: &Vec<Vec<Plate>>) -> (rects: Vec<Rect>)
    requires
        rows.len() <= i32::MAX,
    ensures
        is_merge_of(rows@, rects@),
        rows_left_to_right(rows@) ==> in_finishing_order(rects@),
{
    let count = rows.len();
    let none: Vec<Plate> = Vec::new();
    let mut open = OpenRects::new();
    let mut rects: Vec<Rect> = Vec::new();
    let mut y: usize = 0;
    proof {
        assert forall|r: Rect| stacked(rows@, r) implies 0 <= r.top by {
            assert(row_has(rows@, r.top as int, r.plate()));
        }
    }
    while y <= count
        invariant
            count == rows.len(),
            count <= i32::MAX,
            y <= count + 1,
            none@.len() == 0,
            keyed(open@),
            forall|k: (i32, i32)| #[trigger]
                open@.contains_key(k) <==> row_has(rows@, y - 1, plate_of(k)),
            forall|k: (i32, i32)| #[trigger]
                open@.contains_key(k) ==> grown_to(rows@, open@[k], y - 1),
            rects@.no_duplicates(),
            forall|r: Rect| #[trigger] rects@.contains(r) <==> stacked(rows@, r) && r.top + 1 < y,
            rows_left_to_right(rows@) ==> in_finishing_order(rects@),
        decreases count + 1 - y,
    {
        let prev = if y > 0 {
            &rows[y - 1]
        } else {
            &none
        };
        let cur = if y < count {
            &rows[y]
        } else {
            &none
        };
        let ghost open_before = open@;
        let ghost rects_before = rects@;
        proof {
            assert forall|p: Plate| prev@.contains(p) <==> row_has(rows@, y - 1, p) by {}
            assert forall|p: Plate| cur@.contains(p) <==> row_has(rows@, y as int, p) by {}
            assert forall|r: Rect| rects@.contains(r) implies !holds(open@, r) by {
                if holds(open@, r) {
                    assert(grown_to(rows@, open@[r.plate().pair()], y - 1));
                }
            }
        }
        close_finished(&mut open, prev, cur, &mut rects);
        let ghost open_closed = open@;
        extend_or_open(&mut open, cur, y as i32);
        proof {
            assert forall|k: (i32, i32)| #[trigger]
                open@.contains_key(k) <==> row_has(rows@, y as int, plate_of(k)) by {
                if open_closed.contains_key(k) {
                    assert(open_before.contains_key(k));
                }
            }
            assert forall|k: (i32, i32)| #[trigger] open@.contains_key(k) implies grown_to(
                rows@,
                open@[k],
                y as int,
            ) by {
                let p = plate_of(k);
                assert(p.pair() == k);
                assert(cur@.contains(p));
                let risen_rect = risen(open_closed, p, y as i32);
                assert(open@[k] == risen_rect);
                if open_closed.contains_key(k) {
                    let below = open_before[k];
                    assert(open_before.contains_key(k));
                    assert(open_closed[k] == below);
                    assert(grown_to(rows@, below, y - 1));
                    assert(below.plate() == p);
                    assert forall|row: int|
                        risen_rect.bottom <= row <= risen_rect.top implies #[trigger] row_has(
                        rows@,
                        row,
                        risen_rect.plate(),
                    ) by {
                        if row < y {
                            assert(row_has(rows@, row, below.plate()));
                        }
                    }
                } else {
                    assert(!open_before.contains_key(k) || ends_here(prev@, cur@, p));
                    assert(!row_has(rows@, y - 1, p));
                }
            }
            if rows_left_to_right(rows@) {
                let kept = rects_before.len() as int;
                assert(y > 0 ==> left_to_right(rows@[y - 1]@));
                assert(left_to_right(prev@));
                assert forall|i: int, j: int| 0 <= i < j < rects@.len() implies finished_before(
                    rects@[i],
                    rects@[j],
                ) by {
                    if i < kept {
                        assert(rects@[i] == rects_before[i]);
                        assert(rects_before.contains(rects_before[i]));
                    }
                    if j < kept {
                        assert(rects@[j] == rects_before[j]);
                    } else {
                        assert(rects@.contains(rects@[j]));
                        if rects_before.contains(rects@[j]) {
                            let k = choose|k: int| 0 <= k < kept && rects_before[k] == rects@[j];
                            assert(rects@[k] == rects_before[k]);
                        }
                        assert(grown_to(rows@, open_before[rects@[j].plate().pair()], y - 1));
                        if i >= kept {
                            assert(rects@.contains(rects@[i]));
                            if rects_before.contains(rects@[i]) {
                                let k = choose|k: int|
                                    0 <= k < kept && rects_before[k] == rects@[i];
                                assert(rects@[k] == rects_before[k]);
                            }
                            assert(grown_to(rows@, open_before[rects@[i].plate().pair()], y - 1));
                        }
                    }
                }
            }
            assert forall|r: Rect| #[trigger]
                rects@.contains(r) <==> stacked(rows@, r) && r.top + 1 < y + 1 by {
                let k = r.plate().pair();
                assert(plate_of(k) == r.plate());
                if stacked(rows@, r) && r.top + 1 == y {
                    assert(row_has(rows@, r.top as int, r.plate()));
                    assert(open_before.contains_key(k));
                    lemma_grown_unique(rows@, r, open_before[k], y - 1);
                }
                if holds(open_before, r) && ends_here(prev@, cur@, r.plate()) {
                    assert(grown_to(rows@, open_before[k], y - 1));
                }
            }
        }
        y = y + 1;
    }
    proof {
        assert forall|r: Rect| stacked(rows@, r) implies r.top + 1 < y by {
            assert(row_has(rows@, r.top as int, r.plate()));
        }
    }
    rects
}

} // verus!
