use vstd::prelude::*;

verus! {

/// Eight three-channel values stored channel-major: `first[j]`, `second[j]` and
/// `third[j]` are the channels of the value in lane `j`. Every stage of the
/// vector engine then works on one channel of all eight values at once.
#[derive(Clone, Copy, Debug)]
pub struct Lanes<T> {
    pub first: [T; 8],
    pub second: [T; 8],
    pub third: [T; 8],
}

/// Channel `ch` of the value in lane `j`.
pub open spec fn lane_channel<T>(lanes: Lanes<T>, j: int, ch: int) -> T {
    if ch == 0 {
        lanes.first[j]
    } else if ch == 1 {
        lanes.second[j]
    } else {
        lanes.third[j]
    }
}

/// Moves eight values, each stored as three channels, into channel-major lanes.
/// Lane `j` holds value `j`: the lanes keep memory order.
pub fn to_lanes<T: Copy>(values: &[[T; 3]; 8]) -> (lanes: Lanes<T>)
    ensures
        forall|j: int, ch: int|
            0 <= j < 8 && 0 <= ch < 3 ==> #[trigger] lane_channel(lanes, j, ch) == values[j][ch],
{
    let mut first: [T; 8] = [values[0][0]; 8];
    let mut second: [T; 8] = [values[0][1]; 8];
    let mut third: [T; 8] = [values[0][2]; 8];
    let mut j: usize = 0;
    while j < 8
        invariant
            j <= 8,
            forall|m: int|
                0 <= m < j ==> first[m] == values[m][0] && second[m] == values[m][1] && third[m]
                    == values[m][2],
        decreases 8 - j,
    {
        first[j] = values[j][0];
        second[j] = values[j][1];
        third[j] = values[j][2];
        j += 1;
    }
    Lanes { first, second, third }
}

/// Moves channel-major lanes back to eight values of three channels each, value
/// `j` from lane `j`.
pub fn from_lanes<T: Copy>(lanes: &Lanes<T>) -> (values: [[T; 3]; 8])
    ensures
        forall|j: int, ch: int|
            0 <= j < 8 && 0 <= ch < 3 ==> values[j][ch] == #[trigger] lane_channel(*lanes, j, ch),
{
    let mut values: [[T; 3]; 8] = [[lanes.first[0], lanes.second[0], lanes.third[0]]; 8];
    let mut j: usize = 0;
    while j < 8
        invariant
            j <= 8,
            forall|m: int, ch: int|
                0 <= m < j && 0 <= ch < 3 ==> values[m][ch] == #[trigger] lane_channel(
                    *lanes,
                    m,
                    ch,
                ),
        decreases 8 - j,
    {
        values[j] = [lanes.first[j], lanes.second[j], lanes.third[j]];
        j += 1;
    }
    values
}

/// Picks, lane by lane, `when_true[j]` where `mask[j]` holds and `when_false[j]`
/// elsewhere. Both branches of a piecewise formula are computed for all lanes,
/// and this selects per lane without a branch on the data.
pub fn blend<T: Copy>(when_false: &[T; 8], when_true: &[T; 8], mask: &[bool; 8]) -> (r: [T; 8])
    ensures
        forall|j: int|
            0 <= j < 8 ==> #[trigger] r[j] == (if mask[j] {
                when_true[j]
            } else {
                when_false[j]
            }),
{
    let mut r: [T; 8] = *when_false;
    let mut j: usize = 0;
    while j < 8
        invariant
            j <= 8,
            forall|m: int|
                0 <= m < 8 ==> #[trigger] r[m] == (if m < j && mask[m] {
                    when_true[m]
                } else {
                    when_false[m]
                }),
        decreases 8 - j,
    {
        if mask[j] {
            r[j] = when_true[j];
        }
        j += 1;
    }
    r
}

/// `lanes` holds the eight values of `values` channel-major, value `j` in lane `j`.
pub open spec fn holds_in_lanes<T>(values: [[T; 3]; 8], lanes: Lanes<T>) -> bool {
    forall|j: int, ch: int|
        0 <= j < 8 && 0 <= ch < 3 ==> #[trigger] lane_channel(lanes, j, ch) == values[j][ch]
}

/// `r` is what `stages` may make of `values` moved into lanes, moved back to one
/// value per lane.
pub open spec fn converted_in_lanes<T, U, S: Fn(Lanes<T>) -> Lanes<U>>(
    stages: S,
    values: [[T; 3]; 8],
    r: [[U; 3]; 8],
) -> bool {
    exists|input: Lanes<T>, output: Lanes<U>|
        #![trigger stages.ensures((input,), output)]
        holds_in_lanes(values, input) && stages.ensures((input,), output) && holds_in_lanes(
            r,
            output,
        )
}

/// Every result of `stages` holds, in each lane, `g` of the value in the same
/// lane of its input.
pub open spec fn stages_lanewise<T, U, S: Fn(Lanes<T>) -> Lanes<U>>(
    stages: S,
    g: spec_fn([T; 3]) -> [U; 3],
) -> bool {
    forall|input: Lanes<T>, output: Lanes<U>, j: int, ch: int|
        #![trigger stages.ensures((input,), output), lane_channel(output, j, ch)]
        stages.ensures((input,), output) && 0 <= j < 8 && 0 <= ch < 3 ==> lane_channel(
            output,
            j,
            ch,
        ) == g([lane_channel(input, j, 0), lane_channel(input, j, 1), lane_channel(input, j, 2)])[ch]
}

/// Converts eight values at once: moves them into channel-major lanes, runs
/// `stages` on all lanes together, and moves the result back to one value per
/// lane, value `j` of the result from lane `j`.
pub fn convert_in_lanes<T: Copy, U: Copy, S: Fn(Lanes<T>) -> Lanes<U>>(
    values: &[[T; 3]; 8],
    stages: &S,
) -> (r: [[U; 3]; 8])
    requires
        forall|l: Lanes<T>| stages.requires((l,)),
    ensures
        converted_in_lanes(*stages, *values, r),
{
    let input = to_lanes(values);
    let output = stages(input);
    let r = from_lanes(&output);
    assert(holds_in_lanes(*values, input));
    assert(holds_in_lanes(r, output));
    r
}

/// When every stage result holds, in each lane, `g` of that lane's value, a
/// conversion in lanes gives `g` of each value in the same position: the lane
/// order is kept on the way in and on the way out.
pub proof fn lemma_in_lanes_keeps_order<T, U, S: Fn(Lanes<T>) -> Lanes<U>>(
    stages: S,
    g: spec_fn([T; 3]) -> [U; 3],
    values: [[T; 3]; 8],
    r: [[U; 3]; 8],
)
    requires
        stages_lanewise(stages, g),
        converted_in_lanes(stages, values, r),
    ensures
        forall|j: int| 0 <= j < 8 ==> #[trigger] r[j] == g(values[j]),
{
    let (input, output) = choose|input: Lanes<T>, output: Lanes<U>|
        #![trigger stages.ensures((input,), output)]
        holds_in_lanes(values, input) && stages.ensures((input,), output) && holds_in_lanes(
            r,
            output,
        );
    assert forall|j: int| 0 <= j < 8 implies #[trigger] r[j] == g(values[j]) by {
        let v = [lane_channel(input, j, 0), lane_channel(input, j, 1), lane_channel(input, j, 2)];
        assert(lane_channel(input, j, 0) == values[j][0]);
        assert(lane_channel(input, j, 1) == values[j][1]);
        assert(lane_channel(input, j, 2) == values[j][2]);
        assert(v@ =~= values[j]@);
        assert(v == values[j]);
        assert forall|ch: int| 0 <= ch < 3 implies r[j][ch] == g(values[j])[ch] by {
            assert(lane_channel(output, j, ch) == r[j][ch]);
            assert(lane_channel(output, j, ch) == g(v)[ch]);
        }
        assert(r[j]@ =~= g(values[j])@);
    }
}

/// Moving values into lanes and back gives the same values: no lane is lost,
/// duplicated or moved.
pub proof fn lemma_lanes_round_trip<T>(values: [[T; 3]; 8], lanes: Lanes<T>, back: [[T; 3]; 8])
    requires
        forall|j: int, ch: int|
            0 <= j < 8 && 0 <= ch < 3 ==> #[trigger] lane_channel(lanes, j, ch) == values[j][ch],
        forall|j: int, ch: int|
            0 <= j < 8 && 0 <= ch < 3 ==> back[j][ch] == #[trigger] lane_channel(lanes, j, ch),
    ensures
        back == values,
{
    assert forall|j: int| 0 <= j < 8 implies back[j] == values[j] by {
        assert forall|ch: int| 0 <= ch < 3 implies back[j][ch] == values[j][ch] by {
            assert(lane_channel(lanes, j, ch) == values[j][ch]);
        }
        assert(back[j]@ =~= values[j]@);
    }
    assert(back@ =~= values@);
}

} // verus!
