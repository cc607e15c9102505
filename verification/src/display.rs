use vstd::prelude::*;
use vstd::string::StringExecFns;
use crate::pattern::STEPS;

verus! {

/// One step as the terminal shows it: `[x]` when set, `[ ]` when not.
pub open spec fn spec_cell(on: bool) -> Seq<char> {
    if on {
        seq!['[', 'x', ']']
    } else {
        seq!['[', ' ', ']']
    }
}

/// A row of steps as the terminal shows it: the cells, one space apart.
pub open spec fn spec_row(marks: Seq<bool>) -> Seq<char>
    decreases marks.len(),
{
    if marks.len() == 0 {
        Seq::empty()
    } else if marks.len() == 1 {
        spec_cell(marks[0])
    } else {
        spec_row(marks.drop_last()) + seq![' '] + spec_cell(marks.last())
    }
}

/// Marks the step `step` and no other.
pub open spec fn spec_position_marks(step: int) -> Seq<bool> {
    Seq::new(STEPS as nat, |i: int| i == step)
}

/// A track of the pattern as the terminal shows it, e.g.
/// `[x] [ ] [ ] [ ] [x] [ ] [ ] [ ]`.
pub fn pattern_row(track: &[bool; STEPS]) -> (row: String)
    ensures
        row@ == spec_row(track@),
{
    let mut row = String::new();
    let mut i: usize = 0;
    while i < STEPS
        invariant
            i <= STEPS,
            row@ == spec_row(track@.take(i as int)),
        decreases STEPS - i,
    {
        proof {
            reveal_strlit(" ");
            reveal_strlit("[x]");
            reveal_strlit("[ ]");
        }
        let ghost before = row@;
        if i > 0 {
            row.append(" ");
        }
        if track[i] {
            row.append("[x]");
        } else {
            row.append("[ ]");
        }
        assert(track@.take(i + 1).drop_last() =~= track@.take(i as int));
        proof {
            if i == 0 {
                assert(row@ =~= spec_cell(track@[0]));
            } else {
                assert(row@ =~= before + seq![' '] + spec_cell(track@[i as int]));
            }
        }
        i = i + 1;
    }
    assert(track@.take(STEPS as int) =~= track@);
    row
}

/// The step indicator line: a cell per step, with `step` marked.
pub fn step_indicator(step: usize) -> (line: String)
    ensures
        line@ == spec_row(spec_position_marks(step as int)),
{
    let marks = [
        step == 0,
        step == 1,
        step == 2,
        step == 3,
        step == 4,
        step == 5,
        step == 6,
        step == 7,
    ];
    assert(marks@ =~= spec_position_marks(step as int));
    pattern_row(&marks)
}

/// The three characters of a row that show step `k`.
pub open spec fn cell_of(row: Seq<char>, k: int) -> Seq<char> {
    row.subrange(4 * k, 4 * k + 3)
}

/// The character of a row between the cells of steps `k` and `k + 1`.
pub open spec fn gap_of(row: Seq<char>, k: int) -> char {
    row[4 * k + 3]
}

/// The layout of a row: `4n - 1` characters for `n >= 1` steps, step `k` in
/// the cell at columns `4k` to `4k + 2`, and a space between consecutive
/// cells.
pub proof fn lemma_row_layout(marks: Seq<bool>)
    requires
        marks.len() >= 1,
    ensures
        spec_row(marks).len() == 4 * marks.len() - 1,
        forall|k: int|
            0 <= k < marks.len() ==> #[trigger] cell_of(spec_row(marks), k) == spec_cell(marks[k]),
        forall|k: int| 0 <= k < marks.len() - 1 ==> #[trigger] gap_of(spec_row(marks), k) == ' ',
    decreases marks.len(),
{
    let row = spec_row(marks);
    if marks.len() > 1 {
        let front = marks.drop_last();
        lemma_row_layout(front);
        let prev = spec_row(front);
        assert(row == prev + seq![' '] + spec_cell(marks.last()));
        assert forall|k: int| 0 <= k < marks.len() implies #[trigger] cell_of(row, k) == spec_cell(
            marks[k],
        ) by {
            if k < marks.len() - 1 {
                assert(cell_of(prev, k) == spec_cell(front[k]));
                assert(cell_of(row, k) =~= cell_of(prev, k));
            } else {
                assert(cell_of(row, k) =~= spec_cell(marks.last()));
            }
        }
        assert forall|k: int| 0 <= k < marks.len() - 1 implies #[trigger] gap_of(row, k) == ' ' by {
            if k < marks.len() - 2 {
                assert(gap_of(prev, k) == ' ');
            }
        }
    } else {
        assert(row == spec_cell(marks[0]));
        assert forall|k: int| 0 <= k < marks.len() implies #[trigger] cell_of(row, k) == spec_cell(
            marks[k],
        ) by {
            assert(cell_of(row, k) =~= row);
        }
    }
}

/// The step indicator marks the step that sounds now and only it: for a
/// step `step < STEPS`, the cell of step `k` shows `[x]` exactly when `k` is
/// `step`, and `[ ]` otherwise.
pub proof fn lemma_indicator_marks_one(step: int, k: int)
    requires
        0 <= step < STEPS,
        0 <= k < STEPS,
    ensures
        spec_row(spec_position_marks(step)).len() == 4 * STEPS - 1,
        cell_of(spec_row(spec_position_marks(step)), k) == spec_cell(k == step),
{
    let marks = spec_position_marks(step);
    lemma_row_layout(marks);
    assert(marks[k] == (k == step));
}

} // verus!
