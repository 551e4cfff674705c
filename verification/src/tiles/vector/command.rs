//! Geometry command decoding.
//!
//! A feature's geometry is a list of integers. Each command integer holds the
//! command's identifier in its lowest three bits and a repetition count in the
//! remaining bits. `MoveTo` and `LineTo` are followed by two parameters for
//! every repetition, `ClosePath` has no parameters.

use vstd::prelude::*;

verus! {

/// Geometry drawing command.
#[derive(Copy, Clone, Debug, PartialEq, Eq, Structural)]
pub enum Command {
    MoveTo(i32, i32),
    LineTo(i32, i32),
    ClosePath,
}

/// Signed value of a parameter.
///
/// The lowest bit holds the sign, the remaining bits are read as the halved
/// two's complement of the parameter.
pub open spec fn parameter_value(parameter: u32) -> int {
    let signed: int = if parameter < 0x8000_0000 {
        parameter as int
    } else {
        parameter - 0x1_0000_0000
    };
    if parameter % 2 == 0 {
        signed / 2
    } else {
        -1 - signed / 2
    }
}

/// Identifier of a command integer.
pub open spec fn command_id(command: u32) -> int {
    command as int % 8
}

/// Repetition count of a command integer.
pub open spec fn command_count(command: u32) -> int {
    command as int / 8
}

/// Command with its position.
pub open spec fn positioned(id: int, x: u32, y: u32) -> Command {
    if id == 1 {
        Command::MoveTo(parameter_value(x) as i32, parameter_value(y) as i32)
    } else {
        Command::LineTo(parameter_value(x) as i32, parameter_value(y) as i32)
    }
}

/// Commands of a run of `count` parameter pairs, as far as the geometry has
/// them.
pub open spec fn run(geometry: Seq<u32>, id: int, index: int, count: int) -> Seq<Command>
    decreases count,
{
    if count <= 0 || index + 1 >= geometry.len() {
        Seq::empty()
    } else {
        seq![positioned(id, geometry[index], geometry[index + 1])] + run(
            geometry,
            id,
            index + 2,
            count - 1,
        )
    }
}

/// Repeated `ClosePath` commands.
pub open spec fn closes(count: int) -> Seq<Command> {
    Seq::new(count as nat, |i: int| Command::ClosePath)
}

/// All commands encoded by a geometry, starting with the command integer at
/// `index`.
///
/// Decoding ends with the geometry or at the first unknown identifier. Once
/// the geometry has ended, only the first repetition of a `ClosePath` remains.
pub open spec fn decoded(geometry: Seq<u32>, index: int) -> Seq<Command>
    decreases
        if index < geometry.len() {
            geometry.len() - index
        } else {
            0
        },
{
    if index < 0 || index >= geometry.len() {
        Seq::empty()
    } else {
        let id = command_id(geometry[index]);
        let count = command_count(geometry[index]);
        if id == 1 || id == 2 {
            run(geometry, id, index + 1, count) + decoded(geometry, index + 1 + 2 * count)
        } else if id == 7 {
            if index + 1 == geometry.len() {
                closes(1)
            } else {
                closes(count) + decoded(geometry, index + 1)
            }
        } else {
            Seq::empty()
        }
    }
}

/// No `ClosePath` reached while decoding has a repetition count of zero.
pub open spec fn decodable(geometry: Seq<u32>, index: int) -> bool
    decreases
        if index < geometry.len() {
            geometry.len() - index
        } else {
            0
        },
{
    if index < 0 || index >= geometry.len() {
        true
    } else {
        let id = command_id(geometry[index]);
        let count = command_count(geometry[index]);
        if id == 1 || id == 2 {
            decodable(geometry, index + 1 + 2 * count)
        } else if id == 7 {
            count > 0 && decodable(geometry, index + 1)
        } else {
            true
        }
    }
}

/// Decode a parameter's value.
pub fn decode_parameter(parameter: u32) -> (value: i32)
    ensures
        value == parameter_value(parameter),
        -0x4000_0000 <= value < 0x4000_0000,
{
    let half: i32 = if parameter < 0x8000_0000 {
        (parameter / 2) as i32
    } else {
        ((parameter / 2) as i64 - 0x8000_0000) as i32
    };
    if parameter % 2 == 0 {
        half
    } else {
        -1 - half
    }
}

/// Check whether a geometry can be decoded.
pub fn is_decodable(geometry: &[u32]) -> (result: bool)
    ensures
        result == decodable(geometry@, 0),
{
    let len = geometry.len();
    let mut index: usize = 0;
    while index < len
        invariant
            len == geometry@.len(),
            decodable(geometry@, index as int) == decodable(geometry@, 0),
        decreases len - index,
    {
        let command: u32 = geometry[index];
        let count: u32 = command / 8;
        index += 1;
        match command % 8 {
            1 | 2 => {
                // Skip the command's parameters.
                let parameters: usize = count as usize * 2;
                if parameters >= len - index {
                    assert(decodable(geometry@, index + parameters));
                    return true;
                }
                index += parameters;
            },
            7 => if count == 0 {
                return false;
            },
            _ => return true,
        }
    }
    true
}

/// Iterator over commands in a feature's geometry.
pub struct GeometryIter<'a> {
    geometry: &'a [u32],
    command: Option<(Command, u32)>,
    index: usize,
}

impl<'a> GeometryIter<'a> {
    /// Commands which have not been returned yet.
    pub closed spec fn remaining(&self) -> Seq<Command> {
        let geometry = self.geometry@;
        let index = self.index as int;
        if index >= geometry.len() {
            Seq::empty()
        } else {
            match self.command {
                None => decoded(geometry, index),
                Some((Command::ClosePath, count)) => closes(count as int) + decoded(
                    geometry,
                    index,
                ),
                Some((Command::MoveTo(x, _), count)) => pending(geometry, 1, index, x, count as int),
                Some((Command::LineTo(x, _), count)) => pending(geometry, 2, index, x, count as int),
            }
        }
    }

    /// All remaining commands can be decoded.
    pub closed spec fn decodable(&self) -> bool {
        let geometry = self.geometry@;
        let index = self.index as int;
        &&& index <= geometry.len()
        &&& match self.command {
            None | Some((Command::ClosePath, _)) => decodable(geometry, index),
            Some((_, count)) => decodable(geometry, index + count),
        }
    }

    pub fn new(geometry: &'a [u32]) -> (iter: Self)
        ensures
            iter.remaining() == decoded(geometry@, 0),
            iter.decodable() == decodable(geometry@, 0),
    {
        Self { geometry, command: None, index: 0 }
    }

    /// Get the next command.
    pub fn next(&mut self) -> (command: Option<Command>)
        requires
            old(self).decodable(),
        ensures
            final(self).decodable(),
            match command {
                Some(command) => old(self).remaining() == seq![command] + final(self).remaining(),
                None => old(self).remaining().len() == 0 && final(self).remaining().len() == 0,
            },
    {
        let len = self.geometry.len();
        while self.index < len
            invariant
                len == self.geometry@.len(),
                self.decodable(),
                self.remaining() == old(self).remaining(),
            decreases len - self.index, (if self.command is Some { 1int } else { 0int }),
        {
            let ghost before = *self;
            match self.command {
                // Parse the next command integer.
                None => {
                    let command_int: u32 = self.geometry[self.index];
                    let count: u32 = command_int / 8;
                    self.index += 1;

                    match command_int % 8 {
                        1 => {
                            self.command = Some((Command::MoveTo(0, 0), count * 2));
                            proof {
                                lemma_run_split(self.geometry@, 1, self.index as int, count as int);
                            }
                        },
                        2 => {
                            self.command = Some((Command::LineTo(0, 0), count * 2));
                            proof {
                                lemma_run_split(self.geometry@, 2, self.index as int, count as int);
                            }
                        },
                        // ClosePath has no parameters, so we stop parsing.
                        7 => {
                            if count != 1 {
                                self.command = Some((Command::ClosePath, count - 1));
                            }
                            proof {
                                assert(closes(count as int) =~= seq![Command::ClosePath] + closes(
                                    count - 1,
                                ));
                                assert(before.remaining() =~= seq![Command::ClosePath]
                                    + self.remaining());
                            }
                            return Some(Command::ClosePath);
                        },
                        // Stop if the geometry list is malformed.
                        _ => {
                            self.index = len;
                            return None;
                        },
                    }
                },
                Some((command, count)) => {
                    // Reset command after all commands of one type are dispatched.
                    if count == 0 {
                        self.command = None;
                        proof {
                            assert(self.remaining() =~= before.remaining());
                        }
                        continue ;
                    }
                    match command {
                        // Return all remaining `ClosePath` commands.
                        Command::ClosePath => {
                            self.command = Some((Command::ClosePath, count - 1));
                            proof {
                                assert(closes(count as int) =~= seq![Command::ClosePath] + closes(
                                    count - 1,
                                ));
                                assert(before.remaining() =~= seq![Command::ClosePath]
                                    + self.remaining());
                            }
                            return Some(Command::ClosePath);
                        },
                        // Handle parameters of `MoveTo`/`LineTo` commands.
                        Command::MoveTo(x, _) => {
                            let value = decode_parameter(self.geometry[self.index]);
                            self.index += 1;
                            if (count - 1) % 2 == 0 {
                                let command = Command::MoveTo(x, value);
                                self.command = Some((command, count - 1));
                                proof {
                                    assert(before.remaining() =~= seq![command] + self.remaining());
                                }
                                return Some(command);
                            }
                            self.command = Some((Command::MoveTo(value, 0), count - 1));
                            proof {
                                assert(before.remaining() =~= self.remaining());
                            }
                        },
                        Command::LineTo(x, _) => {
                            let value = decode_parameter(self.geometry[self.index]);
                            self.index += 1;
                            if (count - 1) % 2 == 0 {
                                let command = Command::LineTo(x, value);
                                self.command = Some((command, count - 1));
                                proof {
                                    assert(before.remaining() =~= seq![command] + self.remaining());
                                }
                                return Some(command);
                            }
                            self.command = Some((Command::LineTo(value, 0), count - 1));
                            proof {
                                assert(before.remaining() =~= self.remaining());
                            }
                        },
                    }
                },
            }
        }
        None
    }
}

/// Commands left in the middle of a run with `count` unread parameters.
spec fn pending(geometry: Seq<u32>, id: int, index: int, x: i32, count: int) -> Seq<Command> {
    if count % 2 == 0 {
        run(geometry, id, index, count / 2) + decoded(geometry, index + count)
    } else if index >= geometry.len() {
        Seq::empty()
    } else {
        let y = parameter_value(geometry[index]) as i32;
        seq![
            if id == 1 {
                Command::MoveTo(x, y)
            } else {
                Command::LineTo(x, y)
            },
        ] + run(geometry, id, index + 1, (count - 1) / 2) + decoded(geometry, index + count)
    }
}

/// A run which the geometry ends before completing has nothing behind it.
proof fn lemma_run_split(geometry: Seq<u32>, id: int, index: int, count: int)
    requires
        0 <= index,
        0 <= count,
    ensures
        index >= geometry.len() ==> run(geometry, id, index, count) + decoded(
            geometry,
            index + 2 * count,
        ) == Seq::<Command>::empty(),
{
    if index >= geometry.len() {
        assert(run(geometry, id, index, count) + decoded(geometry, index + 2 * count) =~= Seq::<
            Command,
        >::empty());
    }
}

/// Parameter with the specified value.
pub open spec fn parameter_of(value: int) -> u32 {
    if value >= 0 {
        (2 * value) as u32
    } else {
        (-2 * value - 1) as u32
    }
}

/// Every value can be read back from its parameter: even parameters are
/// non-negative values, odd ones are negative values.
pub proof fn law_parameter_round_trip(value: int)
    requires
        -0x4000_0000 <= value < 0x4000_0000,
    ensures
        parameter_value(parameter_of(value)) == value,
{
}

/// Commands of the same type, which are encoded by one command integer.
pub enum Run {
    MoveTo(Seq<(i32, i32)>),
    LineTo(Seq<(i32, i32)>),
    ClosePath,
}

impl Run {
    /// Commands of the run.
    pub open spec fn commands(self) -> Seq<Command> {
        match self {
            Run::MoveTo(points) => points.map_values(
                |point: (i32, i32)| Command::MoveTo(point.0, point.1),
            ),
            Run::LineTo(points) => points.map_values(
                |point: (i32, i32)| Command::LineTo(point.0, point.1),
            ),
            Run::ClosePath => seq![Command::ClosePath],
        }
    }

    /// The run can be encoded.
    pub open spec fn valid(self) -> bool {
        match self {
            Run::MoveTo(points) | Run::LineTo(points) => {
                &&& points.len() < 0x2000_0000
                &&& encodable_points(points)
            },
            Run::ClosePath => true,
        }
    }

    /// Integers encoding the run.
    pub open spec fn encoded(self) -> Seq<u32> {
        match self {
            Run::MoveTo(points) => seq![(points.len() * 8 + 1) as u32] + encoded_points(points),
            Run::LineTo(points) => seq![(points.len() * 8 + 2) as u32] + encoded_points(points),
            Run::ClosePath => seq![15u32],
        }
    }
}

/// All coordinates of a list of points can be encoded.
pub open spec fn encodable_points(points: Seq<(i32, i32)>) -> bool {
    forall|i: int|
        0 <= i < points.len() ==> {
            &&& -0x4000_0000 <= (#[trigger] points[i]).0 < 0x4000_0000
            &&& -0x4000_0000 <= points[i].1 < 0x4000_0000
        }
}

/// Parameters of a list of points.
pub open spec fn encoded_points(points: Seq<(i32, i32)>) -> Seq<u32>
    decreases points.len(),
{
    if points.len() == 0 {
        Seq::empty()
    } else {
        seq![parameter_of(points[0].0 as int), parameter_of(points[0].1 as int)] + encoded_points(
            points.drop_first(),
        )
    }
}

/// Geometry encoding a list of runs.
pub open spec fn encoded_runs(runs: Seq<Run>) -> Seq<u32>
    decreases runs.len(),
{
    if runs.len() == 0 {
        Seq::empty()
    } else {
        runs[0].encoded() + encoded_runs(runs.drop_first())
    }
}

/// Commands of a list of runs.
pub open spec fn run_commands(runs: Seq<Run>) -> Seq<Command>
    decreases runs.len(),
{
    if runs.len() == 0 {
        Seq::empty()
    } else {
        runs[0].commands() + run_commands(runs.drop_first())
    }
}

proof fn lemma_run_decoded(
    before: Seq<u32>,
    id: int,
    points: Seq<(i32, i32)>,
    behind: Seq<u32>,
)
    requires
        id == 1 || id == 2,
        encodable_points(points),
    ensures
        encoded_points(points).len() == 2 * points.len(),
        run(
            before + encoded_points(points) + behind,
            id,
            before.len() as int,
            points.len() as int,
        ) == points.map_values(
            |point: (i32, i32)|
                if id == 1 {
                    Command::MoveTo(point.0, point.1)
                } else {
                    Command::LineTo(point.0, point.1)
                },
        ),
    decreases points.len(),
{
    let geometry = before + encoded_points(points) + behind;
    let list = points.map_values(
        |point: (i32, i32)|
            if id == 1 {
                Command::MoveTo(point.0, point.1)
            } else {
                Command::LineTo(point.0, point.1)
            },
    );
    if points.len() == 0 {
        assert(run(geometry, id, before.len() as int, 0) =~= list);
    } else {
        let rest = points.drop_first();
        let first = seq![parameter_of(points[0].0 as int), parameter_of(points[0].1 as int)];
        assert(encodable_points(rest)) by {
            assert forall|i: int| 0 <= i < rest.len() implies {
                &&& -0x4000_0000 <= (#[trigger] rest[i]).0 < 0x4000_0000
                &&& -0x4000_0000 <= rest[i].1 < 0x4000_0000
            } by {
                assert(rest[i] == points[i + 1]);
            }
        }
        lemma_run_decoded(before + first, id, rest, behind);
        assert(before + first + encoded_points(rest) + behind =~= geometry);
        law_parameter_round_trip(points[0].0 as int);
        law_parameter_round_trip(points[0].1 as int);
        assert(geometry[before.len() as int] == first[0]);
        assert(geometry[before.len() as int + 1] == first[1]);
        assert(run(geometry, id, before.len() as int, points.len() as int) =~= list);
    }
}

proof fn lemma_runs_decoded(before: Seq<u32>, runs: Seq<Run>)
    requires
        forall|i: int| 0 <= i < runs.len() ==> (#[trigger] runs[i]).valid(),
    ensures
        decoded(before + encoded_runs(runs), before.len() as int) == run_commands(runs),
        decodable(before + encoded_runs(runs), before.len() as int),
    decreases runs.len(),
{
    let geometry = before + encoded_runs(runs);
    let index = before.len() as int;
    if runs.len() == 0 {
        assert(geometry =~= before);
    } else {
        let rest = runs.drop_first();
        let head = runs[0].encoded();
        assert forall|i: int| 0 <= i < rest.len() implies (#[trigger] rest[i]).valid() by {
            assert(rest[i] == runs[i + 1]);
        }
        lemma_runs_decoded(before + head, rest);
        assert(before + head + encoded_runs(rest) =~= geometry);
        assert(geometry[index] == head[0]);
        assert(runs[0].valid());
        match runs[0] {
            Run::MoveTo(points) => {
                lemma_run_decoded(before + seq![head[0]], 1, points, encoded_runs(rest));
                assert(before + seq![head[0]] + encoded_points(points) + encoded_runs(rest)
                    =~= geometry);
                assert(run(geometry, 1, index + 1, points.len() as int) =~= runs[0].commands());
            },
            Run::LineTo(points) => {
                lemma_run_decoded(before + seq![head[0]], 2, points, encoded_runs(rest));
                assert(before + seq![head[0]] + encoded_points(points) + encoded_runs(rest)
                    =~= geometry);
                assert(run(geometry, 2, index + 1, points.len() as int) =~= runs[0].commands());
            },
            Run::ClosePath => {
                assert(closes(1) =~= seq![Command::ClosePath]);
                if index + 1 == geometry.len() {
                    assert(decoded(geometry, index + 1) =~= Seq::<Command>::empty());
                    assert(run_commands(runs) =~= closes(1));
                }
            },
        }
    }
}

/// Decoding a geometry gives back all commands from which it was encoded, in
/// their order.
pub proof fn law_geometry_round_trip(runs: Seq<Run>)
    requires
        forall|i: int| 0 <= i < runs.len() ==> (#[trigger] runs[i]).valid(),
    ensures
        decoded(encoded_runs(runs), 0) == run_commands(runs),
        decodable(encoded_runs(runs), 0),
{
    lemma_runs_decoded(Seq::empty(), runs);
    assert(Seq::<u32>::empty() + encoded_runs(runs) =~= encoded_runs(runs));
}

} // verus!
