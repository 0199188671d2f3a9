use vstd::prelude::*;
use vstd::std_specs::ops::AddSpec;
use vstd::std_specs::ops::DivSpec;
use vstd::std_specs::ops::MulSpec;
use vstd::std_specs::ops::SubSpec;
use crate::scalar::below;
use crate::scalar::exact;
use crate::scalar::from_whole;
use crate::scalar::is_below;
use crate::scalar::total;
use crate::scalar::whole;
use crate::scalar::Scalar;

verus! {

/// A segment may have this many rows at most, so that its rows can be told their times.
pub const ROW_LIMIT: usize = 2147483647;

/// The square of the distance of the point `p` from the line through `a` and `b`.
pub open spec fn distance_squared<R: Scalar>(a: Seq<R>, b: Seq<R>, p: Seq<R>) -> R {
    let along = b[0].sub_spec(a[0]);
    let up = b[1].sub_spec(a[1]);
    let cross = along.mul_spec(a[1].sub_spec(p[1])).sub_spec(up.mul_spec(a[0].sub_spec(p[0])));
    cross.mul_spec(cross).div_spec(along.mul_spec(along).add_spec(up.mul_spec(up)))
}

/// The square of the distance of the point `p` from the line through `a` and `b`.
pub fn distance_point_to_line_squared_2d<R: Scalar>(a: [R; 2], b: [R; 2], p: [R; 2]) -> (d: R)
    requires
        total::<R>(),
    ensures
        exact::<R>() ==> d == distance_squared(a@, b@, p@),
{
    let along = b[0] - a[0];
    let up = b[1] - a[1];
    let cross = along * (a[1] - p[1]) - up * (a[0] - p[0]);
    cross * cross / (along * along + up * up)
}

/// Against what the values of a curve are drawn.
pub enum Abscissa<R> {
    /// Against time: row `i` stands at `start_time + dt * i`.
    Time { dt: R, start_time: R },
    /// Against another column of the same row.
    Column(usize),
}

/// Every row of the curves has the columns that the curve is drawn from.
pub open spec fn has_columns<R>(curves: Seq<Seq<R>>, abscissa: Abscissa<R>, column: usize) -> bool {
    forall|i: int|
        0 <= i < curves.len() ==> column < (#[trigger] curves[i]).len() && match abscissa {
            Abscissa::Time { .. } => true,
            Abscissa::Column(other) => other < curves[i].len(),
        }
}

/// The point of the curve in row `i`.
pub open spec fn curve_point<R: Scalar>(
    curves: Seq<Seq<R>>,
    abscissa: Abscissa<R>,
    column: usize,
    i: int,
) -> Seq<R> {
    match abscissa {
        Abscissa::Time { dt, start_time } => seq![
            start_time.add_spec(dt.mul_spec(whole::<R>(i as i32))),
            curves[i][column as int],
        ],
        Abscissa::Column(other) => seq![curves[i][other as int], curves[i][column as int]],
    }
}

/// The rows of a curve, as the lists they are.
pub open spec fn rows_of<R>(curves: Seq<Vec<R>>) -> Seq<Seq<R>> {
    curves.map_values(|row: Vec<R>| row@)
}

/// Among the points of the rows from `from` up to `upto`, the first that is farthest from
/// the line through `a` and `b`: the square of its distance, its row, and whether there
/// is one at all whose distance is above zero. Where there is none, the row is `from`.
pub open spec fn farthest<R: Scalar>(
    curves: Seq<Seq<R>>,
    abscissa: Abscissa<R>,
    column: usize,
    a: Seq<R>,
    b: Seq<R>,
    from: int,
    upto: int,
) -> (R, int, bool)
    decreases upto - from,
{
    if upto <= from {
        (whole::<R>(0), from, false)
    } else {
        let before = farthest(curves, abscissa, column, a, b, from, upto - 1);
        let distance = distance_squared(a, b, curve_point(curves, abscissa, column, upto - 1));
        if below(before.0, distance) {
            (distance, upto - 1, true)
        } else {
            before
        }
    }
}

/// The rows that are kept of a curve between the rows `first` and `last`. Where a point
/// strictly between them, the row before `last` left aside, is farther from the line
/// through the two ends than the tolerance allows, the curve is split at the farthest such
/// point and both parts are gone through; where not, one row is kept: that of the farthest
/// point, or the row after `first` where all points lie on the line.
pub open spec fn simplified<R: Scalar>(
    curves: Seq<Seq<R>>,
    abscissa: Abscissa<R>,
    column: usize,
    first: int,
    last: int,
    epsilon_square: R,
) -> Seq<usize>
    decreases last - first,
{
    let a = curve_point(curves, abscissa, column, first);
    let b = curve_point(curves, abscissa, column, last);
    let found = farthest(curves, abscissa, column, a, b, first + 1, last - 1);
    if found.2 && below(epsilon_square, found.0) && first < found.1 < last {
        simplified(curves, abscissa, column, first, found.1, epsilon_square) + simplified(
            curves,
            abscissa,
            column,
            found.1,
            last,
            epsilon_square,
        )
    } else {
        seq![found.1 as usize]
    }
}

/// The rows `kept` lie after `first`, none after `last`, each after the one before.
pub open spec fn rises_between(kept: Seq<usize>, first: int, last: int) -> bool {
    &&& forall|k: int| 0 <= k < kept.len() ==> first < #[trigger] kept[k] <= last
    &&& forall|j: int, k: int| 0 <= j < k < kept.len() ==> kept[j] <= kept[k]
}

fn point_of<R: Scalar>(curves: &Vec<Vec<R>>, abscissa: &Abscissa<R>, column: usize, i: usize) -> (point:
    [R; 2])
    requires
        total::<R>(),
        i < curves@.len() <= ROW_LIMIT,
        has_columns(rows_of(curves@), *abscissa, column),
    ensures
        exact::<R>() ==> point@ == curve_point(rows_of(curves@), *abscissa, column, i as int),
{
    assert(rows_of(curves@)[i as int] == curves@[i as int]@);
    let point = match abscissa {
        Abscissa::Time { dt, start_time } => {
            let row: R = from_whole(i as i32);
            [*start_time + *dt * row, curves[i][column]]
        },
        Abscissa::Column(other) => [curves[i][*other], curves[i][column]],
    };
    assert(exact::<R>() ==> point@ =~= curve_point(
        rows_of(curves@),
        *abscissa,
        column,
        i as int,
    ));
    point
}

/// Goes through a curve between the rows `first_element` and `last_element` and adds the
/// rows that are kept of it to `kept`.
fn recursively_simplify<R: Scalar>(
    curves: &Vec<Vec<R>>,
    abscissa: &Abscissa<R>,
    column: usize,
    first_element: usize,
    last_element: usize,
    epsilon_square: R,
    kept: &mut Vec<usize>,
)
    requires
        total::<R>(),
        first_element < last_element < curves@.len() <= ROW_LIMIT,
        has_columns(rows_of(curves@), *abscissa, column),
    ensures
        final(kept)@.len() > old(kept)@.len(),
        final(kept)@.take(old(kept)@.len() as int) == old(kept)@,
        rises_between(
            final(kept)@.skip(old(kept)@.len() as int),
            first_element as int,
            last_element as int,
        ),
        exact::<R>() ==> final(kept)@.skip(old(kept)@.len() as int) == simplified(
            rows_of(curves@),
            *abscissa,
            column,
            first_element as int,
            last_element as int,
            epsilon_square,
        ),
    decreases last_element - first_element,
{
    let ghost rows = rows_of(curves@);
    let a = point_of(curves, abscissa, column, first_element);
    let b = point_of(curves, abscissa, column, last_element);
    let mut max_square_distance: R = from_whole(0);
    let mut index_of_max = first_element + 1;
    let mut found = false;
    let mut i = first_element + 1;
    while i < last_element - 1
        invariant
            total::<R>(),
            first_element < last_element < curves@.len() <= ROW_LIMIT,
            rows == rows_of(curves@),
            has_columns(rows, *abscissa, column),
            first_element + 1 <= i,
            i <= last_element - 1 || i == first_element + 1,
            first_element + 1 <= index_of_max,
            found ==> index_of_max < i,
            !found ==> index_of_max == first_element + 1,
            exact::<R>() ==> a@ == curve_point(rows, *abscissa, column, first_element as int),
            exact::<R>() ==> b@ == curve_point(rows, *abscissa, column, last_element as int),
            exact::<R>() ==> (max_square_distance, index_of_max as int, found) == farthest(
                rows,
                *abscissa,
                column,
                a@,
                b@,
                first_element + 1,
                i as int,
            ),
        decreases last_element - i,
    {
        let mid_point = point_of(curves, abscissa, column, i);
        let square_distance = distance_point_to_line_squared_2d(a, b, mid_point);
        if is_below(max_square_distance, square_distance) {
            max_square_distance = square_distance;
            index_of_max = i;
            found = true;
        }
        i += 1;
    }
    proof {
        if i > last_element - 1 {
            // no row lies between the ends
            assert(farthest(
                rows,
                *abscissa,
                column,
                a@,
                b@,
                first_element + 1,
                last_element - 1,
            ) == (whole::<R>(0), first_element + 1, false));
        }
    }
    let ghost start = kept@;
    if found && is_below(epsilon_square, max_square_distance) {
        recursively_simplify(
            curves,
            abscissa,
            column,
            first_element,
            index_of_max,
            epsilon_square,
            kept,
        );
        let ghost middle = kept@;
        recursively_simplify(
            curves,
            abscissa,
            column,
            index_of_max,
            last_element,
            epsilon_square,
            kept,
        );
        proof {
            let left = middle.skip(start.len() as int);
            let right = kept@.skip(middle.len() as int);
            assert(middle =~= kept@.take(middle.len() as int));
            assert(kept@.take(start.len() as int) =~= middle.take(start.len() as int));
            assert(kept@.skip(start.len() as int) =~= left + right);
            assert forall|j: int, k: int|
                0 <= j < k < (left + right).len() implies (left + right)[j] <= (left + right)[k] by {
                if j < left.len() && k >= left.len() {
                    assert(left[j] <= index_of_max);
                    assert(right[k - left.len()] > index_of_max);
                }
            }
        }
    } else {
        kept.push(index_of_max);
        proof {
            assert(kept@.take(start.len() as int) =~= start);
            assert(kept@.skip(start.len() as int) =~= seq![index_of_max]);
        }
    }
}

/// The rows that are kept of each of the first `curve_count` curves of a segment, drawn
/// against time: what is left when every stretch that stays within `epsilon` of a
/// straight line is cut down to one row. The first row of the segment is kept besides.
pub fn simplify_curves_individually<R: Scalar>(
    dt: R,
    start_time: R,
    curves: &Vec<Vec<R>>,
    epsilon: &R,
    curve_count: usize,
) -> (kept: Vec<Vec<usize>>)
    requires
        total::<R>(),
        2 <= curves@.len() <= ROW_LIMIT,
        forall|i: int| 0 <= i < curves@.len() ==> curve_count <= (#[trigger] curves@[i])@.len(),
    ensures
        kept@.len() == curve_count,
        forall|c: int|
            0 <= c < curve_count ==> rises_between((#[trigger] kept@[c])@, 0, curves@.len() - 1),
        exact::<R>() ==> forall|c: int|
            0 <= c < curve_count ==> (#[trigger] kept@[c])@ == simplified(
                rows_of(curves@),
                Abscissa::Time { dt, start_time },
                c as usize,
                0,
                curves@.len() - 1,
                epsilon.mul_spec(*epsilon),
            ),
{
    let abscissa = Abscissa::Time { dt, start_time };
    let epsilon_square = *epsilon * *epsilon;
    let mut kept: Vec<Vec<usize>> = Vec::new();
    let mut c: usize = 0;
    while c < curve_count
        invariant
            total::<R>(),
            2 <= curves@.len() <= ROW_LIMIT,
            forall|i: int| 0 <= i < curves@.len() ==> curve_count <= (#[trigger] curves@[i])@.len(),
            abscissa == (Abscissa::Time { dt, start_time }),
            exact::<R>() ==> epsilon_square == epsilon.mul_spec(*epsilon),
            c <= curve_count,
            kept@.len() == c,
            forall|d: int|
                0 <= d < c ==> rises_between((#[trigger] kept@[d])@, 0, curves@.len() - 1),
            exact::<R>() ==> forall|d: int|
                0 <= d < c ==> (#[trigger] kept@[d])@ == simplified(
                    rows_of(curves@),
                    abscissa,
                    d as usize,
                    0,
                    curves@.len() - 1,
                    epsilon_square,
                ),
        decreases curve_count - c,
    {
        assert(has_columns(rows_of(curves@), abscissa, c)) by {
            assert forall|i: int| 0 <= i < curves@.len() implies c < (#[trigger] rows_of(
                curves@,
            )[i]).len() by {
                assert(rows_of(curves@)[i] == curves@[i]@);
            }
        }
        let mut rows: Vec<usize> = Vec::new();
        recursively_simplify(curves, &abscissa, c, 0, curves.len() - 1, epsilon_square, &mut rows);
        assert(rows@.skip(0) =~= rows@);
        kept.push(rows);
        c += 1;
    }
    kept
}

/// The rows that are kept of the curve that column `index_2` draws against column
/// `index_1`. The first row of the segment is kept besides.
pub fn simplify_parametric_subset_curve<R: Scalar>(
    curves: &Vec<Vec<R>>,
    index_1: usize,
    index_2: usize,
    epsilon: R,
) -> (kept: Vec<usize>)
    requires
        total::<R>(),
        2 <= curves@.len() <= ROW_LIMIT,
        forall|i: int|
            0 <= i < curves@.len() ==> index_1 < (#[trigger] curves@[i])@.len() && index_2
                < curves@[i]@.len(),
    ensures
        rises_between(kept@, 0, curves@.len() - 1),
        kept@.len() > 0,
        exact::<R>() ==> kept@ == simplified(
            rows_of(curves@),
            Abscissa::Column(index_1),
            index_2,
            0,
            curves@.len() - 1,
            epsilon.mul_spec(epsilon),
        ),
{
    let abscissa = Abscissa::Column(index_1);
    assert(has_columns(rows_of(curves@), abscissa, index_2)) by {
        assert forall|i: int| 0 <= i < curves@.len() implies index_2 < (#[trigger] rows_of(
            curves@,
        )[i]).len() && index_1 < rows_of(curves@)[i].len() by {
            assert(rows_of(curves@)[i] == curves@[i]@);
        }
    }
    let mut kept: Vec<usize> = Vec::new();
    recursively_simplify(curves, &abscissa, index_2, 0, curves.len() - 1, epsilon * epsilon, &mut kept);
    assert(kept@.skip(0) =~= kept@);
    kept
}

} // verus!
