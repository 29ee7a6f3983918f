//! Where anchors stand in the text, and to which files that text belongs.

use crate::review_comment::{Anchor, AnchorRange, DiffHunkKey};
use crate::text::{opt_string_view, same_text};
use vstd::prelude::*;
use vstd::string::*;

verus! {

/// A row and a column of a text, both from zero.
#[derive(Clone, Copy, Debug, PartialEq, Eq, Structural)]
pub struct Point {
    pub row: u32,
    pub column: u32,
}

/// A point of one of the buffers that an editor shows.
#[derive(Clone, Copy, Debug, PartialEq, Eq, Structural)]
pub struct BufferPlace {
    pub buffer_id: u64,
    pub point: Point,
}

/// Where an anchor stands.
#[derive(Clone, Debug)]
pub struct AnchorPlace {
    /// Its point in the text of the editor.
    pub point: Point,
    /// The row on which it is shown, with what is folded away left out.
    pub display_row: u32,
    /// Whether the text that it was put in is still there.
    pub valid: bool,
    /// The same point in the buffer that the text comes from, where it comes from one.
    pub buffer: Option<BufferPlace>,
    /// The path of the file at that point.
    pub file: Option<String>,
}

/// The rows of a hunk of the diff, and the path of the file that it belongs to.
#[derive(Clone, Debug)]
pub struct DiffRows {
    pub start_row: u32,
    pub end_row: u32,
    pub file: Option<String>,
}

/// A buffer that an editor shows: the path of its file and the anchors at its points.
#[derive(Clone, Debug)]
pub struct ReviewBuffer {
    pub path: Option<String>,
    pub anchors: Vec<(Point, Anchor)>,
}

/// The text of an editor at one moment.
#[derive(Clone, Debug)]
pub struct ReviewSnapshot {
    pub places: Vec<AnchorPlace>,
    pub hunks: Vec<DiffRows>,
    pub buffers: Vec<ReviewBuffer>,
}

/// The first hunk at or after `from` whose rows, the one below them counted in, hold `row`.
pub open spec fn hunk_at_row(hunks: Seq<DiffRows>, row: u32, from: int) -> Option<int>
    decreases hunks.len() - from,
{
    if from < 0 || from >= hunks.len() {
        None
    } else if hunks[from].start_row <= row <= hunks[from].end_row {
        Some(from)
    } else {
        hunk_at_row(hunks, row, from + 1)
    }
}

/// The first buffer at or after `from` that shows the file at `path`.
pub open spec fn buffer_with_path(buffers: Seq<ReviewBuffer>, path: Seq<char>, from: int) -> Option<
    int,
>
    decreases buffers.len() - from,
{
    if from < 0 || from >= buffers.len() {
        None
    } else if opt_string_view(buffers[from].path) == Some(path) {
        Some(from)
    } else {
        buffer_with_path(buffers, path, from + 1)
    }
}

/// The first anchor at or after `from` that stands at `point`.
pub open spec fn anchor_with_point(
    anchors: Seq<(Point, Anchor)>,
    point: Point,
    from: int,
) -> Option<Anchor>
    decreases anchors.len() - from,
{
    if from < 0 || from >= anchors.len() {
        None
    } else if anchors[from].0 == point {
        Some(anchors[from].1)
    } else {
        anchor_with_point(anchors, point, from + 1)
    }
}

/// Whether a hunk of the diff is one of the file at `path` and its rows, the one below them
/// counted in, hold `row`. A hunk of no file is one at the empty path.
pub open spec fn is_hunk_of(hunk: DiffRows, path: Seq<char>, row: u32) -> bool {
    &&& hunk.start_row <= row <= hunk.end_row
    &&& match hunk.file {
        Some(file) => file@ == path,
        None => path.len() == 0,
    }
}

impl ReviewSnapshot {
    /// Whether the diff still has a hunk at the place that a key was made for.
    pub open spec fn has_hunk(&self, key: DiffHunkKey) -> bool {
        exists|k: int|
            0 <= k < self.hunks@.len() && is_hunk_of(
                #[trigger] self.hunks@[k],
                key.file_path@,
                self.point_at(key.hunk_start_anchor).row,
            )
    }

    /// Where an anchor stands. One that is not known stands at the beginning.
    pub open spec fn point_at(&self, anchor: Anchor) -> Point {
        if anchor.id < self.places@.len() {
            self.places@[anchor.id as int].point
        } else {
            Point { row: 0, column: 0 }
        }
    }

    /// The row on which an anchor is shown.
    pub open spec fn display_row_at(&self, anchor: Anchor) -> u32 {
        if anchor.id < self.places@.len() {
            self.places@[anchor.id as int].display_row
        } else {
            0
        }
    }

    /// Whether the text that an anchor was put in is still there.
    pub open spec fn valid_at(&self, anchor: Anchor) -> bool {
        anchor.id < self.places@.len() && self.places@[anchor.id as int].valid
    }

    /// The point of a buffer at which an anchor stands.
    pub open spec fn buffer_at(&self, anchor: Anchor) -> Option<BufferPlace> {
        if anchor.id < self.places@.len() {
            self.places@[anchor.id as int].buffer
        } else {
            None
        }
    }

    /// The path of the file under review at an anchor: that of the text there or else, where a
    /// hunk of the diff is, that of the hunk.
    pub open spec fn file_at(&self, anchor: Anchor) -> Option<String> {
        if anchor.id < self.places@.len() && self.places@[anchor.id as int].file is Some {
            self.places@[anchor.id as int].file
        } else {
            match hunk_at_row(self.hunks@, self.point_at(anchor).row, 0) {
                Some(hunk) => self.hunks@[hunk].file,
                None => None,
            }
        }
    }

    /// The text of the path of the file under review at an anchor.
    pub open spec fn path_at(&self, anchor: Anchor) -> Option<Seq<char>> {
        opt_string_view(self.file_at(anchor))
    }

    /// The anchor at a point of the file at `path`.
    pub open spec fn anchor_in(&self, path: Seq<char>, point: Point) -> Option<Anchor> {
        match buffer_with_path(self.buffers@, path, 0) {
            Some(buffer) => anchor_with_point(self.buffers@[buffer].anchors@, point, 0),
            None => None,
        }
    }

    /// Whether two keys stand for the same hunk.
    pub open spec fn same_hunk(&self, a: DiffHunkKey, b: DiffHunkKey) -> bool {
        &&& a.file_path@ == b.file_path@
        &&& self.point_at(a.hunk_start_anchor) == self.point_at(b.hunk_start_anchor)
        &&& match (a.review_range_end_anchor, b.review_range_end_anchor) {
            (Some(a), Some(b)) => self.point_at(a) == self.point_at(b),
            (None, None) => true,
            _ => false,
        }
    }

    /// Whether two ranges stand at the same points.
    pub open spec fn same_range(&self, a: AnchorRange, b: AnchorRange) -> bool {
        self.point_at(a.start) == self.point_at(b.start) && self.point_at(a.end) == self.point_at(
            b.end,
        )
    }

    /// Where an anchor stands.
    pub fn point_of(&self, anchor: Anchor) -> (point: Point)
        ensures
            point == self.point_at(anchor),
    {
        if anchor.id < self.places.len() {
            self.places[anchor.id].point
        } else {
            Point { row: 0, column: 0 }
        }
    }

    /// The row on which an anchor is shown.
    pub fn display_row_of(&self, anchor: Anchor) -> (row: u32)
        ensures
            row == self.display_row_at(anchor),
    {
        if anchor.id < self.places.len() {
            self.places[anchor.id].display_row
        } else {
            0
        }
    }

    /// Whether the text that an anchor was put in is still there.
    pub fn is_valid(&self, anchor: Anchor) -> (valid: bool)
        ensures
            valid == self.valid_at(anchor),
    {
        anchor.id < self.places.len() && self.places[anchor.id].valid
    }

    /// The point of a buffer at which an anchor stands.
    pub fn buffer_of(&self, anchor: Anchor) -> (place: Option<BufferPlace>)
        ensures
            place == self.buffer_at(anchor),
    {
        if anchor.id < self.places.len() {
            self.places[anchor.id].buffer
        } else {
            None
        }
    }

    /// Whether the diff still has a hunk at the place that a key was made for.
    pub fn still_has_hunk(&self, key: &DiffHunkKey) -> (has: bool)
        ensures
            has == self.has_hunk(*key),
    {
        let row: u32 = self.point_of(key.hunk_start_anchor).row;
        let mut k: usize = 0;
        while k < self.hunks.len()
            invariant
                k <= self.hunks@.len(),
                row == self.point_at(key.hunk_start_anchor).row,
                forall|j: int|
                    0 <= j < k ==> !is_hunk_of(#[trigger] self.hunks@[j], key.file_path@, row),
            decreases self.hunks.len() - k,
        {
            let hunk = &self.hunks[k];
            let same_path = match &hunk.file {
                Some(file) => same_text(file.as_str(), key.file_path.as_str()),
                None => same_text("", key.file_path.as_str()),
            };
            proof {
                reveal_strlit("");
                assert(""@ =~= Seq::<char>::empty());
                assert(key.file_path@.len() == 0 ==> key.file_path@ =~= ""@);
            }
            if same_path && hunk.start_row <= row && row <= hunk.end_row {
                assert(is_hunk_of(self.hunks@[k as int], key.file_path@, row));
                return true;
            }
            k += 1;
        }
        false
    }

    /// The path of the file under review at an anchor.
    pub fn file_path_at(&self, anchor: Anchor) -> (path: Option<String>)
        ensures
            path == self.file_at(anchor),
    {
        if anchor.id < self.places.len() {
            match &self.places[anchor.id].file {
                Some(file) => {
                    return Some(file.clone());
                },
                None => {},
            }
        }
        let row: u32 = self.point_of(anchor).row;
        let mut k: usize = 0;
        while k < self.hunks.len()
            invariant
                k <= self.hunks@.len(),
                row == self.point_at(anchor).row,
                anchor.id < self.places@.len() ==> self.places@[anchor.id as int].file is None,
                hunk_at_row(self.hunks@, row, 0) == hunk_at_row(self.hunks@, row, k as int),
            decreases self.hunks.len() - k,
        {
            if self.hunks[k].start_row <= row && row <= self.hunks[k].end_row {
                return match &self.hunks[k].file {
                    Some(file) => Some(file.clone()),
                    None => None,
                };
            }
            k += 1;
        }
        None
    }

    /// The anchor at a point of the file at `path`.
    pub fn find_anchor(&self, path: &str, point: Point) -> (anchor: Option<Anchor>)
        ensures
            anchor == self.anchor_in(path@, point),
    {
        let mut k: usize = 0;
        while k < self.buffers.len()
            invariant
                k <= self.buffers@.len(),
                buffer_with_path(self.buffers@, path@, 0) == buffer_with_path(
                    self.buffers@,
                    path@,
                    k as int,
                ),
            decreases self.buffers.len() - k,
        {
            let here = match &self.buffers[k].path {
                Some(buffer_path) => same_text(buffer_path.as_str(), path),
                None => false,
            };
            if here {
                let anchors = &self.buffers[k].anchors;
                let mut i: usize = 0;
                while i < anchors.len()
                    invariant
                        i <= anchors@.len(),
                        k < self.buffers@.len(),
                        anchors@ == self.buffers@[k as int].anchors@,
                        buffer_with_path(self.buffers@, path@, 0) == Some(k as int),
                        anchor_with_point(anchors@, point, 0) == anchor_with_point(
                            anchors@,
                            point,
                            i as int,
                        ),
                    decreases anchors.len() - i,
                {
                    let (at, anchor): (Point, Anchor) = anchors[i];
                    if at == point {
                        return Some(anchor);
                    }
                    i += 1;
                }
                return None;
            }
            k += 1;
        }
        None
    }

    /// Whether two keys stand for the same hunk.
    pub fn hunk_keys_match(&self, a: &DiffHunkKey, b: &DiffHunkKey) -> (same: bool)
        ensures
            same == self.same_hunk(*a, *b),
    {
        same_text(a.file_path.as_str(), b.file_path.as_str()) && self.point_of(a.hunk_start_anchor)
            == self.point_of(b.hunk_start_anchor) && match (
            a.review_range_end_anchor,
            b.review_range_end_anchor,
        ) {
            (Some(a), Some(b)) => self.point_of(a) == self.point_of(b),
            (None, None) => true,
            (Some(_), None) => false,
            (None, Some(_)) => false,
        }
    }

    /// Whether two ranges stand at the same points.
    pub fn review_ranges_match(&self, a: &AnchorRange, b: &AnchorRange) -> (same: bool)
        ensures
            same == self.same_range(*a, *b),
    {
        self.point_of(a.start) == self.point_of(b.start) && self.point_of(a.end) == self.point_of(
            b.end,
        )
    }
}

/// Standing for the same hunk is an equivalence.
pub proof fn same_hunk_is_an_equivalence(
    snapshot: ReviewSnapshot,
    a: DiffHunkKey,
    b: DiffHunkKey,
    c: DiffHunkKey,
)
    ensures
        snapshot.same_hunk(a, a),
        snapshot.same_hunk(a, b) ==> snapshot.same_hunk(b, a),
        snapshot.same_hunk(a, b) && snapshot.same_hunk(b, c) ==> snapshot.same_hunk(a, c),
{
}

} // verus!
