//! The redirection engine: which control-utility commands a high-level intent
//! issues, and what the outcome of the whole intent is once they have run.
//!
//! The engine decides and the caller acts: a plan is a sequence of commands,
//! and a `Dispatch` hands them out one at a time, takes back the outcome of
//! each, and sums them up.
use vstd::prelude::*;
use crate::model::{
    default_position, find_default, find_input, find_sink, input_position_from, inputs_view,
    lemma_input_position_bounds, lemma_position_from_bounds, lemma_sink_position_bounds,
    SinkInputView, SinkView,
};
use crate::snapshot::{has_sink, Snapshot, SnapshotView};

verus! {

/// A mutating command of the control utility.
#[derive(Clone, Copy, PartialEq, Eq, Structural, Debug)]
pub enum Command {
    /// `move-sink-input <stream> <sink>`
    MoveSinkInput { stream: u32, sink: u32 },
    /// `set-default-sink <sink>`
    SetDefaultSink { sink: u32 },
}

/// How one run of the control utility failed.
#[derive(Clone, Copy, PartialEq, Eq, Structural, Debug)]
pub enum ToolFailure {
    /// The program could not be started.
    Unavailable,
    /// The program exited with a non-zero status.
    Exited { code: i32 },
    /// The program was terminated by a signal.
    Signaled,
    /// Reading or writing one of the program's streams failed.
    Io,
}

/// Why an intent failed.
#[derive(Clone, Copy, PartialEq, Eq, Structural, Debug)]
pub enum EngineError {
    Tool(ToolFailure),
    UnknownSink { index: u32 },
    UnknownStream { index: u32 },
    NoDefault,
}

/// A failure after which running further commands is pointless.
pub open spec fn is_fatal(f: ToolFailure) -> bool {
    f is Unavailable || f is Io
}

pub open spec fn has_input(inputs: Seq<SinkInputView>, index: u32) -> bool {
    input_position_from(inputs, index, 0) < inputs.len()
}

/// One move of each stream, in order, to `sink`.
pub open spec fn moves_to(inputs: Seq<SinkInputView>, sink: u32) -> Seq<Command> {
    Seq::new(inputs.len(), |k: int| Command::MoveSinkInput { stream: inputs[k].index, sink })
}

/// The commands that moving every stream to the default sink issues.
pub open spec fn default_plan(s: SnapshotView) -> Result<Seq<Command>, EngineError> {
    if s.sinks.len() == 0 {
        Ok(seq![])
    } else if default_position(s.sinks) >= s.sinks.len() {
        Err(EngineError::NoDefault)
    } else {
        Ok(moves_to(s.inputs, s.sinks[default_position(s.sinks)].index))
    }
}

/// The position of the sink that follows the default one; the first sink
/// where the default is last or there is none.
pub open spec fn next_position(sinks: Seq<SinkView>) -> int {
    if default_position(sinks) + 1 < sinks.len() {
        default_position(sinks) + 1
    } else {
        0
    }
}

/// The commands that moving every stream to the next sink issues: the moves,
/// then making that sink the default.
pub open spec fn next_plan(s: SnapshotView) -> Seq<Command> {
    if s.sinks.len() == 0 {
        seq![]
    } else {
        let c = s.sinks[next_position(s.sinks)].index;
        moves_to(s.inputs, c).push(Command::SetDefaultSink { sink: c })
    }
}

/// The commands that moving one stream issues, with or without making the
/// target sink the default.
pub open spec fn move_stream_plan(s: SnapshotView, stream: u32, sink: u32, promote: bool) -> Result<
    Seq<Command>,
    EngineError,
> {
    if !has_input(s.inputs, stream) {
        Err(EngineError::UnknownStream { index: stream })
    } else if !has_sink(s.sinks, sink) {
        Err(EngineError::UnknownSink { index: sink })
    } else if promote {
        Ok(
            seq![
                Command::MoveSinkInput { stream, sink },
                Command::SetDefaultSink { sink },
            ],
        )
    } else {
        Ok(seq![Command::MoveSinkInput { stream, sink }])
    }
}

fn moves_of(snapshot: &Snapshot, sink: u32) -> (r: Vec<Command>)
    ensures
        r@ == moves_to(snapshot@.inputs, sink),
{
    let inputs = snapshot.sink_inputs();
    let ghost ins = snapshot@.inputs;
    let mut out: Vec<Command> = Vec::new();
    let mut i: usize = 0;
    while i < inputs.len()
        invariant
            0 <= i <= inputs@.len(),
            inputs_view(inputs@) == ins,
            out@.len() == i,
            forall|k: int|
                0 <= k < i ==> out@[k] == (Command::MoveSinkInput { stream: ins[k].index, sink }),
        decreases inputs@.len() - i,
    {
        assert(ins[i as int] == inputs@[i as int]@);
        out.push(Command::MoveSinkInput { stream: inputs[i].index, sink });
        i = i + 1;
    }
    assert(out@ =~= moves_to(ins, sink));
    out
}

/// Plans moving every stream to the default sink.
///
/// With no sinks there is nothing to move to; with sinks but none flagged
/// default the intent fails.
pub fn move_all_default(snapshot: &Snapshot) -> (r: Result<Vec<Command>, EngineError>)
    ensures
        r is Ok == default_plan(snapshot@) is Ok,
        r is Ok ==> r.unwrap()@ == default_plan(snapshot@)->Ok_0,
        r is Err ==> r == Err::<Vec<Command>, EngineError>(default_plan(snapshot@)->Err_0),
{
    let sinks = snapshot.sinks();
    if sinks.len() == 0 {
        return Ok(Vec::new());
    }
    let p = find_default(sinks);
    if p >= sinks.len() {
        return Err(EngineError::NoDefault);
    }
    assert(snapshot@.sinks[p as int] == sinks@[p as int]@);
    Ok(moves_of(snapshot, sinks[p].index))
}

/// Plans moving every stream to the sink that follows the default one, then
/// making that sink the default.
pub fn move_all_next(snapshot: &Snapshot) -> (r: Vec<Command>)
    ensures
        r@ == next_plan(snapshot@),
{
    let sinks = snapshot.sinks();
    if sinks.len() == 0 {
        return Vec::new();
    }
    let p = find_default(sinks);
    proof {
        lemma_position_from_bounds(snapshot@.sinks, 0);
    }
    let chosen = if p < sinks.len() - 1 {
        p + 1
    } else {
        0
    };
    assert(snapshot@.sinks[chosen as int] == sinks@[chosen as int]@);
    let c = sinks[chosen].index;
    let mut out = moves_of(snapshot, c);
    out.push(Command::SetDefaultSink { sink: c });
    out
}

/// Plans moving one stream to a sink, both named by index in `snapshot`, and,
/// where `promote` is set, making that sink the default.
pub fn move_stream(snapshot: &Snapshot, stream: u32, sink: u32, promote: bool) -> (r: Result<
    Vec<Command>,
    EngineError,
>)
    ensures
        r is Ok == move_stream_plan(snapshot@, stream, sink, promote) is Ok,
        r is Ok ==> r.unwrap()@ == move_stream_plan(snapshot@, stream, sink, promote)->Ok_0,
        r is Err ==> r == Err::<Vec<Command>, EngineError>(
            move_stream_plan(snapshot@, stream, sink, promote)->Err_0,
        ),
{
    proof {
        lemma_input_position_bounds(snapshot@.inputs, stream, 0);
        lemma_sink_position_bounds(snapshot@.sinks, sink, 0);
    }
    if find_input(snapshot.sink_inputs(), stream) == snapshot.sink_inputs().len() {
        return Err(EngineError::UnknownStream { index: stream });
    }
    if find_sink(snapshot.sinks(), sink) == snapshot.sinks().len() {
        return Err(EngineError::UnknownSink { index: sink });
    }
    if promote {
        let v = vec![Command::MoveSinkInput { stream, sink }, Command::SetDefaultSink { sink }];
        Ok(v)
    } else {
        let v = vec![Command::MoveSinkInput { stream, sink }];
        Ok(v)
    }
}

/// Plans making a sink, named by index in `snapshot`, the default.
pub fn set_default(snapshot: &Snapshot, sink: u32) -> (r: Result<Command, EngineError>)
    ensures
        r == (if has_sink(snapshot@.sinks, sink) {
            Ok::<Command, EngineError>(Command::SetDefaultSink { sink })
        } else {
            Err(EngineError::UnknownSink { index: sink })
        }),
{
    proof {
        lemma_sink_position_bounds(snapshot@.sinks, sink, 0);
    }
    if find_sink(snapshot.sinks(), sink) == snapshot.sinks().len() {
        Err(EngineError::UnknownSink { index: sink })
    } else {
        Ok(Command::SetDefaultSink { sink })
    }
}

/// What a command's outcome leaves on record: nothing for a success, the
/// failure otherwise.
pub open spec fn failure_of(outcome: Result<(), ToolFailure>) -> Option<ToolFailure> {
    match outcome {
        Ok(_) => None,
        Err(f) => Some(f),
    }
}

/// The first fatal failure among the first `n` outcomes.
pub open spec fn first_fatal(o: Seq<Option<ToolFailure>>, n: int) -> Option<ToolFailure>
    decreases n,
{
    if n <= 0 {
        None
    } else {
        match first_fatal(o, n - 1) {
            Some(f) => Some(f),
            None => match o[n - 1] {
                Some(f) => if is_fatal(f) {
                    Some(f)
                } else {
                    None
                },
                None => None,
            },
        }
    }
}

/// The first failure of a move among the first `n` commands.
pub open spec fn first_move_failure(
    c: Seq<Command>,
    o: Seq<Option<ToolFailure>>,
    n: int,
) -> Option<ToolFailure>
    decreases n,
{
    if n <= 0 {
        None
    } else {
        match first_move_failure(c, o, n - 1) {
            Some(f) => Some(f),
            None => if c[n - 1] is MoveSinkInput {
                o[n - 1]
            } else {
                None
            },
        }
    }
}

/// Whether a move among the first `n` commands succeeded.
pub open spec fn any_moved(c: Seq<Command>, o: Seq<Option<ToolFailure>>, n: int) -> bool
    decreases n,
{
    if n <= 0 {
        false
    } else {
        any_moved(c, o, n - 1) || (c[n - 1] is MoveSinkInput && o[n - 1] is None)
    }
}

/// The outcome of an intent whose commands `c` ended with outcomes `o`: the
/// first fatal failure if there was one; else, where moves were issued and
/// none succeeded, the failure of the first; else success.
pub open spec fn verdict(c: Seq<Command>, o: Seq<Option<ToolFailure>>) -> Result<(), ToolFailure> {
    let n = o.len() as int;
    match first_fatal(o, n) {
        Some(f) => Err(f),
        None => if any_moved(c, o, n) {
            Ok(())
        } else {
            match first_move_failure(c, o, n) {
                Some(f) => Err(f),
                None => Ok(()),
            }
        },
    }
}

/// The run of a plan: the commands in order, and the outcome of each one that
/// has been issued so far.
pub struct Dispatch {
    commands: Vec<Command>,
    outcomes: Vec<Option<ToolFailure>>,
}

pub struct DispatchView {
    pub commands: Seq<Command>,
    pub outcomes: Seq<Option<ToolFailure>>,
}

impl View for Dispatch {
    type V = DispatchView;

    closed spec fn view(&self) -> DispatchView {
        DispatchView { commands: self.commands@, outcomes: self.outcomes@ }
    }
}

impl Dispatch {
    /// Starts the run of `commands`, none issued yet.
    pub fn new(commands: Vec<Command>) -> (r: Dispatch)
        ensures
            r@.commands == commands@,
            r@.outcomes == Seq::<Option<ToolFailure>>::empty(),
    {
        Dispatch { commands, outcomes: Vec::new() }
    }

    /// The next command to issue, once every earlier one has an outcome.
    pub fn next_command(&self) -> (r: Option<Command>)
        ensures
            r == (if self@.outcomes.len() < self@.commands.len() {
                Some(self@.commands[self@.outcomes.len() as int])
            } else {
                None
            }),
    {
        if self.outcomes.len() < self.commands.len() {
            Some(self.commands[self.outcomes.len()])
        } else {
            None
        }
    }

    /// Records the outcome of the command that `next_command` gave.
    pub fn record(&mut self, outcome: Result<(), ToolFailure>)
        requires
            old(self)@.outcomes.len() < old(self)@.commands.len(),
        ensures
            final(self)@.commands == old(self)@.commands,
            final(self)@.outcomes == old(self)@.outcomes.push(failure_of(outcome)),
    {
        let f = match outcome {
            Ok(_) => None,
            Err(e) => Some(e),
        };
        self.outcomes.push(f);
    }

    /// Whether every command has an outcome.
    pub fn is_done(&self) -> (r: bool)
        ensures
            r == (self@.outcomes.len() >= self@.commands.len()),
    {
        self.outcomes.len() >= self.commands.len()
    }

    /// Whether the plan moves any stream; where it does not, there was nothing
    /// to move.
    pub fn has_moves(&self) -> (r: bool)
        ensures
            r == exists|k: int| 0 <= k < self@.commands.len() && (#[trigger] self@.commands[k]) is MoveSinkInput,
    {
        let mut i: usize = 0;
        while i < self.commands.len()
            invariant
                0 <= i <= self.commands@.len(),
                forall|k: int| 0 <= k < i ==> !((#[trigger] self.commands@[k]) is MoveSinkInput),
            decreases self.commands@.len() - i,
        {
            if let Command::MoveSinkInput { .. } = self.commands[i] {
                return true;
            }
            i = i + 1;
        }
        false
    }

    /// The commands, in order.
    pub fn commands(&self) -> (r: &Vec<Command>)
        ensures
            r@ == self@.commands,
    {
        &self.commands
    }

    /// The outcomes so far: `None` for a success, the failure otherwise.
    pub fn outcomes(&self) -> (r: &Vec<Option<ToolFailure>>)
        ensures
            r@ == self@.outcomes,
    {
        &self.outcomes
    }

    /// Sums up the outcomes of the run.
    pub fn finish(&self) -> (r: Result<(), ToolFailure>)
        requires
            self@.outcomes.len() <= self@.commands.len(),
        ensures
            r == verdict(self@.commands, self@.outcomes),
    {
        let ghost c = self@.commands;
        let ghost o = self@.outcomes;
        let mut fatal: Option<ToolFailure> = None;
        let mut moved = false;
        let mut move_failure: Option<ToolFailure> = None;
        let mut i: usize = 0;
        while i < self.outcomes.len()
            invariant
                0 <= i <= o.len() <= c.len(),
                c == self.commands@,
                o == self.outcomes@,
                fatal == first_fatal(o, i as int),
                moved == any_moved(c, o, i as int),
                move_failure == first_move_failure(c, o, i as int),
            decreases o.len() - i,
        {
            let outcome = self.outcomes[i];
            let is_move = match self.commands[i] {
                Command::MoveSinkInput { .. } => true,
                Command::SetDefaultSink { .. } => false,
            };
            if fatal.is_none() {
                match outcome {
                    Some(ToolFailure::Unavailable) => {
                        fatal = outcome;
                    },
                    Some(ToolFailure::Io) => {
                        fatal = outcome;
                    },
                    _ => {},
                }
            }
            if is_move {
                if outcome.is_none() {
                    moved = true;
                }
                if move_failure.is_none() {
                    move_failure = outcome;
                }
            }
            i = i + 1;
        }
        match fatal {
            Some(f) => Err(f),
            None => if moved {
                Ok(())
            } else {
                match move_failure {
                    Some(f) => Err(f),
                    None => Ok(()),
                }
            },
        }
    }
}

/// After moving every stream to the default sink ends in success, each stream
/// of the snapshot, in order, had its move to the default sink issued, and the
/// outcome of that move (a success, or the failure kept for that stream) is on
/// record.
pub proof fn lemma_default_moves_every_stream(s: SnapshotView, d: DispatchView)
    requires
        s.sinks.len() > 0,
        default_plan(s) is Ok,
        d.commands == default_plan(s)->Ok_0,
        d.outcomes.len() == d.commands.len(),
        verdict(d.commands, d.outcomes) is Ok,
    ensures
        forall|i: int|
            0 <= i < s.inputs.len() ==> d.commands[i] == (Command::MoveSinkInput {
                stream: (#[trigger] s.inputs[i]).index,
                sink: s.sinks[default_position(s.sinks)].index,
            }) && i < d.outcomes.len(),
{
}

/// Moving every stream to the next sink issues, after the moves, exactly one
/// command that makes a sink the default, and every move and that command
/// name the same sink.
pub proof fn lemma_next_sets_default_once(s: SnapshotView)
    requires
        s.sinks.len() > 0,
    ensures
        ({
            let p = next_plan(s);
            let c = s.sinks[next_position(s.sinks)].index;
            &&& p.len() == s.inputs.len() + 1
            &&& p.last() == (Command::SetDefaultSink { sink: c })
            &&& forall|k: int|
                0 <= k < p.len() - 1 ==> #[trigger] p[k] == (Command::MoveSinkInput {
                    stream: s.inputs[k].index,
                    sink: c,
                })
        }),
{
    let p = next_plan(s);
    let c = s.sinks[next_position(s.sinks)].index;
    assert forall|k: int| 0 <= k < p.len() - 1 implies #[trigger] p[k] == (Command::MoveSinkInput {
        stream: s.inputs[k].index,
        sink: c,
    }) by {
        assert(p[k] == moves_to(s.inputs, c)[k]);
    }
}

/// The status with which a command-line front end exits on an error: 1 where
/// the control utility is missing or failed, 2 where an index or the default
/// could not be resolved, 3 where reading the utility's output failed.
pub open spec fn exit_status(e: EngineError) -> u8 {
    match e {
        EngineError::Tool(ToolFailure::Io) => 3,
        EngineError::Tool(_) => 1,
        EngineError::UnknownSink { .. } => 2,
        EngineError::UnknownStream { .. } => 2,
        EngineError::NoDefault => 2,
    }
}

pub fn exit_code(e: EngineError) -> (r: u8)
    ensures
        r == exit_status(e),
{
    match e {
        EngineError::Tool(ToolFailure::Io) => 3,
        EngineError::Tool(_) => 1,
        EngineError::UnknownSink { .. } => 2,
        EngineError::UnknownStream { .. } => 2,
        EngineError::NoDefault => 2,
    }
}

} // verus!
