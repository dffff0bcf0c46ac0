//! One enumeration of the sound server: its sinks and its streams, taken
//! together, with the diagnostics found while reading them.
//!
//! A snapshot is read-only: its fields are private and every method takes
//! `&self`, so what a caller was handed cannot change under it.
use vstd::prelude::*;
use crate::model::{
    default_position, find_default, find_input, find_sink, input_position_from, inputs_view,
    lemma_sink_position_bounds, non_default, sink_position_from, sink_refs_view, sinks_view,
    Diagnostic, Listing, Sink, SinkInput, SinkInputView, SinkView,
};
use crate::parser::{parse_diagnostics, parse_sink_inputs, parse_sinks, parsed_inputs, parsed_sinks};

verus! {

pub struct Snapshot {
    sinks: Vec<Sink>,
    inputs: Vec<SinkInput>,
    diagnostics: Vec<Diagnostic>,
}

pub struct SnapshotView {
    pub sinks: Seq<SinkView>,
    pub inputs: Seq<SinkInputView>,
    pub diagnostics: Seq<Diagnostic>,
}

impl View for Snapshot {
    type V = SnapshotView;

    closed spec fn view(&self) -> SnapshotView {
        SnapshotView {
            sinks: sinks_view(self.sinks@),
            inputs: inputs_view(self.inputs@),
            diagnostics: self.diagnostics@,
        }
    }
}

/// Whether some sink has this index.
pub open spec fn has_sink(sinks: Seq<SinkView>, index: u32) -> bool {
    sink_position_from(sinks, index, 0) < sinks.len()
}

/// Lines of the sinks listing were discarded as an incomplete group.
pub open spec fn is_sinks_partial(d: Diagnostic) -> bool {
    match d {
        Diagnostic::PartialParse { listing: Listing::Sinks, .. } => true,
        _ => false,
    }
}

/// One diagnostic for each stream, in order, whose sink is not among `sinks`.
pub open spec fn dangling_streams(inputs: Seq<SinkInputView>, sinks: Seq<SinkView>) -> Seq<
    Diagnostic,
>
    decreases inputs.len(),
{
    if inputs.len() == 0 {
        seq![]
    } else {
        let prev = dangling_streams(inputs.drop_last(), sinks);
        let s = inputs.last();
        if has_sink(sinks, s.sink_index) {
            prev
        } else {
            prev.push(Diagnostic::DanglingStream { stream: s.index, sink: s.sink_index })
        }
    }
}

/// The snapshot that the texts of the two listings give.
pub open spec fn snapshot_of(sinks_text: Seq<char>, inputs_text: Seq<char>) -> SnapshotView {
    let sinks = parsed_sinks(sinks_text);
    let inputs = parsed_inputs(inputs_text);
    SnapshotView {
        sinks,
        inputs,
        diagnostics: parse_diagnostics(sinks_text, Listing::Sinks) + parse_diagnostics(
            inputs_text,
            Listing::SinkInputs,
        ) + dangling_streams(inputs, sinks),
    }
}

fn find_dangling(inputs: &Vec<SinkInput>, sinks: &Vec<Sink>) -> (r: Vec<Diagnostic>)
    ensures
        r@ == dangling_streams(inputs_view(inputs@), sinks_view(sinks@)),
{
    let ghost ins = inputs_view(inputs@);
    let ghost sv = sinks_view(sinks@);
    let mut out: Vec<Diagnostic> = Vec::new();
    let mut i: usize = 0;
    while i < inputs.len()
        invariant
            0 <= i <= inputs@.len(),
            ins == inputs_view(inputs@),
            sv == sinks_view(sinks@),
            out@ == dangling_streams(ins.subrange(0, i as int), sv),
        decreases inputs@.len() - i,
    {
        assert(ins.subrange(0, i + 1).drop_last() =~= ins.subrange(0, i as int));
        let s = &inputs[i];
        assert(ins[i as int] == s@);
        proof {
            lemma_sink_position_bounds(sv, s.sink_index, 0);
        }
        if find_sink(sinks, s.sink_index) == sinks.len() {
            out.push(Diagnostic::DanglingStream { stream: s.index, sink: s.sink_index });
        }
        i = i + 1;
    }
    assert(ins.subrange(0, inputs@.len() as int) =~= ins);
    out
}

impl Snapshot {
    /// Reads the text of the sinks listing and of the sink-inputs listing,
    /// taken back to back, into one snapshot.
    pub fn from_listings(sinks_text: &str, inputs_text: &str) -> (r: Snapshot)
        ensures
            r@ == snapshot_of(sinks_text@, inputs_text@),
    {
        let (sinks, mut diagnostics) = parse_sinks(sinks_text);
        let (inputs, mut input_diagnostics) = parse_sink_inputs(inputs_text);
        let mut dangling = find_dangling(&inputs, &sinks);
        diagnostics.append(&mut input_diagnostics);
        diagnostics.append(&mut dangling);
        Snapshot { sinks, inputs, diagnostics }
    }

    /// The sinks, in the order of the listing.
    pub fn sinks(&self) -> (r: &Vec<Sink>)
        ensures
            sinks_view(r@) == self@.sinks,
    {
        &self.sinks
    }

    /// The streams, in the order of the listing.
    pub fn sink_inputs(&self) -> (r: &Vec<SinkInput>)
        ensures
            inputs_view(r@) == self@.inputs,
    {
        &self.inputs
    }

    /// The non-fatal findings of the enumeration.
    pub fn diagnostics(&self) -> (r: &Vec<Diagnostic>)
        ensures
            r@ == self@.diagnostics,
    {
        &self.diagnostics
    }

    /// Whether the sinks listing gave no sink at all while some of its lines
    /// were discarded as an incomplete group: the text was not readable.
    pub fn unreadable(&self) -> (r: bool)
        ensures
            r == (self@.sinks.len() == 0 && exists|k: int|
                0 <= k < self@.diagnostics.len() && is_sinks_partial(#[trigger] self@.diagnostics[k])),
    {
        if self.sinks.len() != 0 {
            return false;
        }
        let mut i: usize = 0;
        while i < self.diagnostics.len()
            invariant
                0 <= i <= self.diagnostics@.len(),
                self.sinks@.len() == 0,
                forall|k: int| 0 <= k < i ==> !is_sinks_partial(#[trigger] self.diagnostics@[k]),
            decreases self.diagnostics@.len() - i,
        {
            if let Diagnostic::PartialParse { listing: Listing::Sinks, .. } = self.diagnostics[i] {
                assert(is_sinks_partial(self@.diagnostics[i as int]));
                return true;
            }
            i = i + 1;
        }
        false
    }

    /// The first sink with this index, if any.
    pub fn lookup_sink_by_index(&self, index: u32) -> (r: Option<&Sink>)
        ensures
            r is Some == has_sink(self@.sinks, index),
            r is Some ==> r.unwrap()@ == self@.sinks[sink_position_from(self@.sinks, index, 0)],
    {
        let p = find_sink(&self.sinks, index);
        if p < self.sinks.len() {
            Some(&self.sinks[p])
        } else {
            None
        }
    }

    /// The first stream with this index, if any.
    pub fn lookup_sink_input_by_index(&self, index: u32) -> (r: Option<&SinkInput>)
        ensures
            r is Some == (input_position_from(self@.inputs, index, 0) < self@.inputs.len()),
            r is Some ==> r.unwrap()@ == self@.inputs[input_position_from(self@.inputs, index, 0)],
    {
        let p = find_input(&self.inputs, index);
        if p < self.inputs.len() {
            Some(&self.inputs[p])
        } else {
            None
        }
    }

    /// The first sink flagged default, if any.
    pub fn default_sink(&self) -> (r: Option<&Sink>)
        ensures
            r is Some == (default_position(self@.sinks) < self@.sinks.len()),
            r is Some ==> r.unwrap()@ == self@.sinks[default_position(self@.sinks)],
    {
        let p = find_default(&self.sinks);
        if p < self.sinks.len() {
            Some(&self.sinks[p])
        } else {
            None
        }
    }

    /// The sinks not flagged default, in order.
    pub fn other_sinks(&self) -> (r: Vec<&Sink>)
        ensures
            sink_refs_view(r@) == non_default(self@.sinks),
    {
        let ghost s = self@.sinks;
        let mut out: Vec<&Sink> = Vec::new();
        let mut i: usize = 0;
        while i < self.sinks.len()
            invariant
                0 <= i <= self.sinks@.len(),
                s == sinks_view(self.sinks@),
                sink_refs_view(out@) == non_default(s.subrange(0, i as int)),
            decreases self.sinks@.len() - i,
        {
            assert(s.subrange(0, i + 1).drop_last() =~= s.subrange(0, i as int));
            let x = &self.sinks[i];
            if !x.is_default {
                let ghost before = out@;
                out.push(x);
                assert(sink_refs_view(out@) =~= sink_refs_view(before).push(x@));
            }
            i = i + 1;
        }
        assert(s.subrange(0, self.sinks@.len() as int) =~= s);
        out
    }
}

} // verus!
