//! Aligning the frames of two videos in order: the longest row of matching frames that runs
//! forward in both.
use vstd::prelude::*;

verus! {

/// Whether two frames may match: anywhere, or within two frames of the same position.
pub open spec fn near(clip_matching: bool, row: int, column: int) -> bool {
    clip_matching || (row - column <= 2 && column - row <= 2)
}

/// Whether two frames may match by their positions.
pub fn may_match(clip_matching: bool, row: usize, column: usize) -> (r: bool)
    ensures
        r == near(clip_matching, row as int, column as int),
{
    let apart: usize = if row >= column {
        row - column
    } else {
        column - row
    };
    clip_matching || apart <= 2
}

/// Which frames match: of each frame of the short video, which of the long one.
pub open spec fn grid_view(hits: Seq<Vec<bool>>) -> Seq<Seq<bool>> {
    hits.map_values(|row: Vec<bool>| row@)
}

/// The length of the longest row of matches that runs forward through the first `r` frames of one
/// video and the first `c` of the other.
pub open spec fn longest(grid: Seq<Seq<bool>>, r: int, c: int) -> int
    decreases r + c,
    when r >= 0 && c >= 0
{
    if r <= 0 || c <= 0 {
        0
    } else {
        let up = longest(grid, r - 1, c);
        let left = longest(grid, r, c - 1);
        let best = if left > up {
            left
        } else {
            up
        };
        let both = longest(grid, r - 1, c - 1) + 1;
        if grid[r - 1][c - 1] && both > best {
            both
        } else {
            best
        }
    }
}

/// Whether points run forward through matches within the first `r` and `c` frames.
pub open spec fn is_chain(grid: Seq<Seq<bool>>, points: Seq<(int, int)>, r: int, c: int) -> bool {
    &&& forall|k: int|
        #![trigger points[k]]
        0 <= k < points.len() ==> 0 <= points[k].0 < r && 0 <= points[k].1 < c
            && grid[points[k].0][points[k].1]
    &&& forall|i: int, j: int|
        #![trigger points[i], points[j]]
        0 <= i < j < points.len() ==> points[i].0 < points[j].0 && points[i].1 < points[j].1
}

proof fn lemma_longest_bounds(grid: Seq<Seq<bool>>, r: int, c: int)
    requires
        r >= 0,
        c >= 0,
    ensures
        0 <= longest(grid, r, c) <= r,
        longest(grid, r, c) <= c,
    decreases r + c,
{
    if r > 0 && c > 0 {
        lemma_longest_bounds(grid, r - 1, c);
        lemma_longest_bounds(grid, r, c - 1);
        lemma_longest_bounds(grid, r - 1, c - 1);
        lemma_longest_step(grid, r, c);
    }
}

/// One more frame of a video adds at most one match.
proof fn lemma_longest_step(grid: Seq<Seq<bool>>, r: int, c: int)
    requires
        r > 0,
        c > 0,
    ensures
        longest(grid, r - 1, c) <= longest(grid, r - 1, c - 1) + 1,
        longest(grid, r, c - 1) <= longest(grid, r - 1, c - 1) + 1,
    decreases r + c,
{
    if r > 1 {
        lemma_longest_step(grid, r - 1, c);
    }
    if c > 1 {
        lemma_longest_step(grid, r, c - 1);
    }
}

/// No row of matches that runs forward is longer than the longest one.
pub proof fn law_longest_is_an_upper_bound(
    grid: Seq<Seq<bool>>,
    points: Seq<(int, int)>,
    r: int,
    c: int,
)
    requires
        r >= 0,
        c >= 0,
        is_chain(grid, points, r, c),
    ensures
        points.len() <= longest(grid, r, c),
    decreases r + c,
{
    if points.len() == 0 {
        lemma_longest_bounds(grid, r, c);
    } else {
        let n = points.len() - 1;
        let last = points[n];
        assert(0 <= last.0 < r && 0 <= last.1 < c);
        assert forall|k: int| 0 <= k < n implies (#[trigger] points[k]).0 < last.0 && points[k].1
            < last.1 by {
            assert(points[k].0 < points[n].0);
        }
        if last.0 < r - 1 {
            law_longest_is_an_upper_bound(grid, points, r - 1, c);
        } else if last.1 < c - 1 {
            law_longest_is_an_upper_bound(grid, points, r, c - 1);
        } else {
            let rest = points.drop_last();
            assert(is_chain(grid, rest, r - 1, c - 1)) by {
                assert forall|k: int| #![trigger rest[k]] 0 <= k < rest.len() implies 0
                    <= rest[k].0 < r - 1 && 0 <= rest[k].1 < c - 1
                    && grid[rest[k].0][rest[k].1] by {
                    assert(rest[k] == points[k]);
                }
                assert forall|i: int, j: int|
                    #![trigger rest[i], rest[j]]
                    0 <= i < j < rest.len() implies rest[i].0 < rest[j].0 && rest[i].1
                    < rest[j].1 by {
                    assert(rest[i] == points[i] && rest[j] == points[j]);
                }
            }
            law_longest_is_an_upper_bound(grid, rest, r - 1, c - 1);
        }
    }
}

/// How the best row of matches up to two frames comes about.
#[derive(Debug, Clone, Copy, PartialEq, Eq, Structural)]
pub enum CellChoice {
    /// The frame of the short video adds nothing.
    Up,
    /// The frame of the long video adds nothing.
    Left,
    /// The two frames match.
    Match,
}

/// Which of two rows of equal length has the higher sum of similarities, where that decides: the
/// one without the last frame of the long video against the one without the last of the short,
/// and the one that ends in a match of the two against each of these.
#[derive(Debug, Clone, Copy, PartialEq, Eq, Structural)]
pub struct TieBreaks {
    pub left_over_up: bool,
    pub match_over_up: bool,
    pub match_over_left: bool,
}

/// The choice at two frames, from the lengths of the rows before them. A longer row wins; of two
/// rows of equal length the one with the higher sum does.
pub open spec fn chosen(up: int, left: int, both: int, hit: bool, ties: TieBreaks) -> CellChoice {
    if left > up || (left == up && ties.left_over_up) {
        if hit && (both + 1 > left || (both + 1 == left && ties.match_over_left)) {
            CellChoice::Match
        } else {
            CellChoice::Left
        }
    } else if hit && (both + 1 > up || (both + 1 == up && ties.match_over_up)) {
        CellChoice::Match
    } else {
        CellChoice::Up
    }
}

/// The alignment of two videos while it is worked out, row by row.
#[derive(Debug, Clone)]
pub struct Alignment {
    pub columns: usize,
    pub hits: Vec<Vec<bool>>,
    pub counts: Vec<Vec<usize>>,
    pub choices: Vec<Vec<CellChoice>>,
    pub row_counts: Vec<usize>,
    pub row_choices: Vec<CellChoice>,
}

/// Whether a choice at the first `r` and `c` frames leads to a longest row.
pub open spec fn leads_on(grid: Seq<Seq<bool>>, choice: CellChoice, r: int, c: int) -> bool {
    match choice {
        CellChoice::Up => longest(grid, r, c) == longest(grid, r - 1, c),
        CellChoice::Left => longest(grid, r, c) == longest(grid, r, c - 1),
        CellChoice::Match => grid[r - 1][c - 1] && longest(grid, r, c) == longest(
            grid,
            r - 1,
            c - 1,
        ) + 1,
    }
}

impl Alignment {
    /// Which frames match.
    pub open spec fn grid(&self) -> Seq<Seq<bool>> {
        grid_view(self.hits@)
    }

    /// What is worked out so far is right: the lengths are those of longest rows, and the choices
    /// lead to them.
    pub open spec fn wf(&self) -> bool {
        &&& self.columns > 0
        &&& self.hits@.len() > 0
        &&& forall|r: int|
            0 <= r < self.hits@.len() ==> (#[trigger] self.hits@[r])@.len() == self.columns
        &&& self.counts@.len() == self.choices@.len()
        &&& self.counts@.len() <= self.hits@.len()
        &&& self.row_counts@.len() == self.row_choices@.len()
        &&& self.row_counts@.len() < self.columns
        &&& self.counts@.len() == self.hits@.len() ==> self.row_counts@.len() == 0
        &&& forall|r: int|
            #![trigger self.counts@[r]]
            #![trigger self.choices@[r]]
            0 <= r < self.counts@.len() ==> self.row_ok(
                self.counts@[r]@,
                self.choices@[r]@,
                r,
            ) && self.counts@[r]@.len() == self.columns
        &&& self.row_ok(self.row_counts@, self.row_choices@, self.counts@.len() as int)
    }

    /// Whether the cells of a row that are there are right.
    pub open spec fn row_ok(&self, counts: Seq<usize>, choices: Seq<CellChoice>, r: int) -> bool {
        &&& counts.len() == choices.len()
        &&& forall|c: int|
            #![trigger counts[c]]
            #![trigger choices[c]]
            0 <= c < counts.len() ==> counts[c] == longest(self.grid(), r + 1, c + 1) && leads_on(
                self.grid(),
                choices[c],
                r + 1,
                c + 1,
            )
    }

    /// Whether all is worked out.
    pub open spec fn complete(&self) -> bool {
        self.counts@.len() == self.hits@.len()
    }

    /// Starts an alignment.
    pub fn new(hits: Vec<Vec<bool>>, columns: usize) -> (r: Alignment)
        requires
            columns > 0,
            hits@.len() > 0,
            forall|i: int| 0 <= i < hits@.len() ==> (#[trigger] hits@[i])@.len() == columns,
        ensures
            r.wf(),
            r.hits == hits,
            r.columns == columns,
            r.counts@.len() == 0,
            r.row_counts@.len() == 0,
    {
        Alignment {
            columns,
            hits,
            counts: Vec::new(),
            choices: Vec::new(),
            row_counts: Vec::new(),
            row_choices: Vec::new(),
        }
    }

    fn count_above(&self, columns: usize) -> (r: usize)
        requires
            self.wf(),
            columns <= self.columns,
        ensures
            r == longest(self.grid(), self.counts@.len() as int, columns as int),
            r <= self.counts@.len(),
    {
        let rows: usize = self.counts.len();
        proof {
            lemma_longest_bounds(self.grid(), rows as int, columns as int);
        }
        if rows == 0 || columns == 0 {
            0
        } else {
            assert(self.row_ok(
                self.counts@[rows - 1]@,
                self.choices@[rows - 1]@,
                rows - 1,
            ));
            self.counts[rows - 1][columns - 1]
        }
    }

    /// Works out the next cell, row by row, and tells the choice that was made there.
    pub fn add_cell(&mut self, ties: TieBreaks) -> (r: CellChoice)
        requires
            old(self).wf(),
            !old(self).complete(),
        ensures
            final(self).wf(),
            final(self).hits == old(self).hits,
            final(self).columns == old(self).columns,
            ({
                let row = old(self).counts@.len() as int;
                let column = old(self).row_counts@.len() as int;
                let grid = old(self).grid();
                &&& r == chosen(
                    longest(grid, row, column + 1),
                    longest(grid, row + 1, column),
                    longest(grid, row, column),
                    grid[row][column],
                    ties,
                )
                &&& if column + 1 == old(self).columns {
                    &&& final(self).row_counts@.len() == 0
                    &&& final(self).choices@.len() == row + 1
                    &&& final(self).choices@.drop_last() == old(self).choices@
                    &&& final(self).choices@.last()@ == old(self).row_choices@.push(r)
                } else {
                    &&& final(self).choices@ == old(self).choices@
                    &&& final(self).row_choices@ == old(self).row_choices@.push(r)
                }
            }),
    {
        let ghost before = *self;
        let ghost grid = self.grid();
        let row: usize = self.counts.len();
        let column: usize = self.row_counts.len();
        let up: usize = self.count_above(column + 1);
        let both: usize = self.count_above(column);
        let left: usize = if column == 0 {
            0
        } else {
            self.row_counts[column - 1]
        };
        let hit = self.hits[row][column];
        assert(grid[row as int][column as int] == hit);
        let rows: usize = self.hits.len();
        assert(both < rows);
        let choice = if left > up || (left == up && ties.left_over_up) {
            if hit && (both + 1 > left || (both + 1 == left && ties.match_over_left)) {
                CellChoice::Match
            } else {
                CellChoice::Left
            }
        } else if hit && (both + 1 > up || (both + 1 == up && ties.match_over_up)) {
            CellChoice::Match
        } else {
            CellChoice::Up
        };
        let count: usize = match choice {
            CellChoice::Up => up,
            CellChoice::Left => left,
            CellChoice::Match => both + 1,
        };
        proof {
            lemma_longest_step(grid, row + 1, column + 1);
            assert(count == longest(grid, row + 1, column + 1));
            assert(leads_on(grid, choice, row + 1, column + 1));
        }
        self.row_counts.push(count);
        self.row_choices.push(choice);
        assert(self.grid() == grid);
        assert(self.row_ok(self.row_counts@, self.row_choices@, row as int));
        if self.row_counts.len() == self.columns {
            let ghost full_counts = self.row_counts@;
            let ghost full_choices = self.row_choices@;
            let mut counts: Vec<usize> = Vec::new();
            std::mem::swap(&mut counts, &mut self.row_counts);
            let mut choices: Vec<CellChoice> = Vec::new();
            std::mem::swap(&mut choices, &mut self.row_choices);
            self.counts.push(counts);
            self.choices.push(choices);
            proof {
                assert(self.grid() == grid);
                assert forall|r: int|
                    #![trigger self.counts@[r]]
                    #![trigger self.choices@[r]]
                    0 <= r < self.counts@.len() implies self.row_ok(
                    self.counts@[r]@,
                    self.choices@[r]@,
                    r,
                ) && self.counts@[r]@.len() == self.columns by {
                    if r < row {
                        assert(self.counts@[r] == before.counts@[r]);
                        assert(self.choices@[r] == before.choices@[r]);
                        assert(before.row_ok(before.counts@[r]@, before.choices@[r]@, r));
                    } else {
                        assert(self.counts@[r]@ == full_counts);
                        assert(self.choices@[r]@ == full_choices);
                    }
                }
                assert(self.choices@.drop_last() =~= before.choices@);
            }
        } else {
            proof {
                assert forall|r: int|
                    #![trigger self.counts@[r]]
                    #![trigger self.choices@[r]]
                    0 <= r < self.counts@.len() implies self.row_ok(
                    self.counts@[r]@,
                    self.choices@[r]@,
                    r,
                ) && self.counts@[r]@.len() == self.columns by {
                    assert(before.row_ok(before.counts@[r]@, before.choices@[r]@, r));
                }
            }
        }
        choice
    }

    /// The points of the row of matches that the choices lead to, from the first `r` and `c`
    /// frames back.
    pub open spec fn traced(&self, r: int, c: int) -> Seq<(int, int)>
        decreases r + c,
        when r >= 0 && c >= 0
    {
        if r <= 0 || c <= 0 || self.counts@[r - 1]@[c - 1] == 0 {
            Seq::empty()
        } else {
            match self.choices@[r - 1]@[c - 1] {
                CellChoice::Up => self.traced(r - 1, c),
                CellChoice::Left => self.traced(r, c - 1),
                CellChoice::Match => self.traced(r - 1, c - 1).push((r - 1, c - 1)),
            }
        }
    }

    proof fn lemma_traced(&self, r: int, c: int)
        requires
            self.wf(),
            0 <= r <= self.counts@.len(),
            0 <= c <= self.columns,
        ensures
            is_chain(self.grid(), self.traced(r, c), r, c),
            self.traced(r, c).len() == longest(self.grid(), r, c),
        decreases r + c,
    {
        let grid = self.grid();
        if r > 0 && c > 0 {
            assert(self.row_ok(self.counts@[r - 1]@, self.choices@[r - 1]@, r - 1));
            assert(self.counts@[r - 1]@[c - 1] == longest(grid, r, c));
            let choice = self.choices@[r - 1]@[c - 1];
            assert(leads_on(grid, choice, r, c));
            if self.counts@[r - 1]@[c - 1] != 0 {
                match choice {
                    CellChoice::Up => {
                        self.lemma_traced(r - 1, c);
                    },
                    CellChoice::Left => {
                        self.lemma_traced(r, c - 1);
                    },
                    CellChoice::Match => {
                        self.lemma_traced(r - 1, c - 1);
                        let rest = self.traced(r - 1, c - 1);
                        let all = self.traced(r, c);
                        assert(all == rest.push((r - 1, c - 1)));
                        assert forall|i: int, j: int|
                            #![trigger all[i], all[j]]
                            0 <= i < j < all.len() implies all[i].0 < all[j].0 && all[i].1
                            < all[j].1 by {
                            if j == rest.len() {
                                assert(all[i] == rest[i]);
                                assert(rest[i].0 < r - 1);
                            } else {
                                assert(all[i] == rest[i] && all[j] == rest[j]);
                            }
                        }
                        assert forall|k: int|
                            #![trigger all[k]]
                            0 <= k < all.len() implies 0 <= all[k].0 < r && 0 <= all[k].1 < c
                            && grid[all[k].0][all[k].1] by {
                            if k < rest.len() {
                                assert(all[k] == rest[k]);
                                assert(rest[k].0 < r - 1);
                            }
                        }
                    },
                }
            }
        }
    }

    /// The points of a longest row of matches, from front to back.
    pub fn points(&self) -> (r: Vec<(usize, usize)>)
        requires
            self.wf(),
            self.complete(),
        ensures
            points_view(r@) == self.traced(self.hits@.len() as int, self.columns as int),
            is_chain(
                self.grid(),
                points_view(r@),
                self.hits@.len() as int,
                self.columns as int,
            ),
            r@.len() == longest(self.grid(), self.hits@.len() as int, self.columns as int),
    {
        let mut row: usize = self.hits.len();
        let mut column: usize = self.columns;
        let ghost whole = self.traced(row as int, column as int);
        let mut back: Vec<(usize, usize)> = Vec::new();
        proof {
            self.lemma_traced(row as int, column as int);
        }
        assert(points_view(back@.reverse()) =~= Seq::empty());
        assert(whole + points_view(back@.reverse()) =~= whole);
        while row > 0 && column > 0 && self.counts[row - 1][column - 1] > 0
            invariant
                self.wf(),
                self.complete(),
                row <= self.hits@.len(),
                column <= self.columns,
                whole == self.traced(self.hits@.len() as int, self.columns as int),
                self.traced(row as int, column as int) + points_view(back@.reverse()) == whole,
            decreases row + column,
        {
            let ghost before = back@;
            match self.choices[row - 1][column - 1] {
                CellChoice::Up => {
                    row -= 1;
                },
                CellChoice::Left => {
                    column -= 1;
                },
                CellChoice::Match => {
                    row -= 1;
                    column -= 1;
                    back.push((row, column));
                    assert(back@.reverse() =~= seq![(row, column)] + before.reverse());
                    assert(points_view(back@.reverse()) =~= seq![(row as int, column as int)]
                        + points_view(before.reverse()));
                    assert(self.traced(row as int, column as int) + points_view(back@.reverse())
                        =~= self.traced(row + 1, column + 1) + points_view(before.reverse()));
                },
            }
        }
        assert(self.traced(row as int, column as int) =~= Seq::empty());
        assert(points_view(back@.reverse()) =~= whole);
        let ghost all = back@.reverse();
        let mut out: Vec<(usize, usize)> = Vec::new();
        let mut n: usize = back.len();
        while n > 0
            invariant
                n == back@.len(),
                out@ + back@.reverse() == all,
            decreases n,
        {
            let ghost before = back@;
            let ghost out_before = out@;
            if let Some(point) = back.pop() {
                out.push(point);
                assert(before.reverse() =~= seq![point] + back@.reverse());
                assert(out@ + back@.reverse() =~= out_before + before.reverse());
            }
            n -= 1;
        }
        assert(out@ =~= all);
        assert(points_view(out@).len() == out@.len());
        out
    }
}

/// Points as numbers.
pub open spec fn points_view(points: Seq<(usize, usize)>) -> Seq<(int, int)> {
    points.map_values(|p: (usize, usize)| (p.0 as int, p.1 as int))
}

/// The first and the last frame of a row of matches, in the short video and in the long one.
pub fn alignment_ranges(points: &Vec<(usize, usize)>) -> (r: Option<(
    (usize, usize),
    (usize, usize),
)>)
    ensures
        r == (if points@.len() == 0 {
            None
        } else {
            Some(
                (
                    (points@[0].0, points@.last().0),
                    (points@[0].1, points@.last().1),
                ),
            )
        }),
{
    let n: usize = points.len();
    if n == 0 {
        None
    } else {
        let first = points[0];
        let last = points[n - 1];
        Some(((first.0, last.0), (first.1, last.1)))
    }
}

/// The most points of a row of matches that are shown.
pub const MAX_SHOWN_POINTS: usize = 64;

/// The positions of the points that are shown: all, or as many as may be, spread evenly from the
/// first to the last.
pub fn shown_points(count: usize) -> (r: Vec<usize>)
    requires
        count <= usize::MAX / 64,
    ensures
        count <= MAX_SHOWN_POINTS ==> r@ == Seq::new(count as nat, |k: int| k as usize),
        count > MAX_SHOWN_POINTS ==> r@.len() == MAX_SHOWN_POINTS && (forall|k: int|
            0 <= k < r@.len() ==> #[trigger] r@[k] == k * (count - 1) / 63),
        forall|k: int| 0 <= k < r@.len() ==> (#[trigger] r@[k]) < count,
{
    let mut out: Vec<usize> = Vec::new();
    if count <= MAX_SHOWN_POINTS {
        let mut i: usize = 0;
        while i < count
            invariant
                i <= count,
                out@ == Seq::new(i as nat, |k: int| k as usize),
            decreases count - i,
        {
            out.push(i);
            assert(out@ =~= Seq::new((i + 1) as nat, |k: int| k as usize));
            i += 1;
        }
        return out;
    }
    let mut i: usize = 0;
    while i < MAX_SHOWN_POINTS
        invariant
            i <= MAX_SHOWN_POINTS,
            MAX_SHOWN_POINTS < count <= usize::MAX / 64,
            out@.len() == i,
            forall|k: int| 0 <= k < i ==> #[trigger] out@[k] == k * (count - 1) / 63,
            forall|k: int| 0 <= k < i ==> (#[trigger] out@[k]) < count,
        decreases MAX_SHOWN_POINTS - i,
    {
        assert(i * (count - 1) <= 63 * (count - 1)) by (nonlinear_arith)
            requires
                i <= 63,
                count >= 1,
        ;
        assert(0 <= i * (count - 1)) by (nonlinear_arith)
            requires
                i >= 0,
                count >= 1,
        ;
        let step: usize = i * (count - 1);
        out.push(step / 63);
        i += 1;
    }
    out
}

} // verus!
