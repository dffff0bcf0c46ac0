//! Records of output devices ("sinks") and playback streams ("sink inputs"),
//! and the snapshot that holds one enumeration of both.
use vstd::prelude::*;

verus! {

/// An output device registered with the sound server.
#[derive(Clone, Debug, PartialEq, Eq)]
pub struct Sink {
    pub index: u32,
    pub name: String,
    pub description: String,
    pub is_default: bool,
}

/// A playback stream attached to some sink.
#[derive(Clone, Debug, PartialEq, Eq)]
pub struct SinkInput {
    pub index: u32,
    pub state: String,
    pub sink_index: u32,
    pub media: String,
    pub app: String,
}

pub struct SinkView {
    pub index: u32,
    pub name: Seq<char>,
    pub description: Seq<char>,
    pub is_default: bool,
}

pub struct SinkInputView {
    pub index: u32,
    pub state: Seq<char>,
    pub sink_index: u32,
    pub media: Seq<char>,
    pub app: Seq<char>,
}

impl View for Sink {
    type V = SinkView;

    open spec fn view(&self) -> SinkView {
        SinkView {
            index: self.index,
            name: self.name@,
            description: self.description@,
            is_default: self.is_default,
        }
    }
}

impl View for SinkInput {
    type V = SinkInputView;

    open spec fn view(&self) -> SinkInputView {
        SinkInputView {
            index: self.index,
            state: self.state@,
            sink_index: self.sink_index,
            media: self.media@,
            app: self.app@,
        }
    }
}

/// Which listing of the control utility a text comes from.
#[derive(Clone, Copy, PartialEq, Eq, Structural, Debug)]
pub enum Listing {
    Sinks,
    SinkInputs,
}

/// A non-fatal finding attached to a snapshot.
#[derive(Clone, Copy, PartialEq, Eq, Structural, Debug)]
pub enum Diagnostic {
    /// The recognised lines of a listing did not fill a whole number of
    /// groups; the last `leftover` lines were discarded.
    PartialParse { listing: Listing, leftover: usize },
    /// The group with this position in its listing was malformed and dropped.
    RecordDropped { listing: Listing, group: usize },
    /// A stream is attached to a sink that the snapshot does not hold.
    DanglingStream { stream: u32, sink: u32 },
}

pub open spec fn sinks_view(v: Seq<Sink>) -> Seq<SinkView> {
    v.map_values(|s: Sink| s@)
}

pub open spec fn inputs_view(v: Seq<SinkInput>) -> Seq<SinkInputView> {
    v.map_values(|s: SinkInput| s@)
}

pub open spec fn sink_refs_view(v: Seq<&Sink>) -> Seq<SinkView> {
    v.map_values(|s: &Sink| s@)
}

/// The first position at or after `i` of a sink with this index, or `s.len()`.
pub open spec fn sink_position_from(s: Seq<SinkView>, index: u32, i: int) -> int
    decreases s.len() - i,
{
    if i >= s.len() {
        s.len() as int
    } else if s[i].index == index {
        i
    } else {
        sink_position_from(s, index, i + 1)
    }
}

/// The first position at or after `i` of a stream with this index, or `s.len()`.
pub open spec fn input_position_from(s: Seq<SinkInputView>, index: u32, i: int) -> int
    decreases s.len() - i,
{
    if i >= s.len() {
        s.len() as int
    } else if s[i].index == index {
        i
    } else {
        input_position_from(s, index, i + 1)
    }
}

/// The first position at or after `i` of a sink flagged default, or `s.len()`.
pub open spec fn default_position_from(s: Seq<SinkView>, i: int) -> int
    decreases s.len() - i,
{
    if i >= s.len() {
        s.len() as int
    } else if s[i].is_default {
        i
    } else {
        default_position_from(s, i + 1)
    }
}

pub open spec fn default_position(s: Seq<SinkView>) -> int {
    default_position_from(s, 0)
}

/// The sinks not flagged default, in order.
pub open spec fn non_default(s: Seq<SinkView>) -> Seq<SinkView>
    decreases s.len(),
{
    if s.len() == 0 {
        s
    } else if s.last().is_default {
        non_default(s.drop_last())
    } else {
        non_default(s.drop_last()).push(s.last())
    }
}

pub proof fn lemma_position_from_bounds(s: Seq<SinkView>, i: int)
    requires
        0 <= i <= s.len(),
    ensures
        i <= default_position_from(s, i) <= s.len(),
        default_position_from(s, i) < s.len() ==> s[default_position_from(s, i)].is_default,
        forall|p: int| i <= p < default_position_from(s, i) ==> !(#[trigger] s[p]).is_default,
    decreases s.len() - i,
{
    if i < s.len() && !s[i].is_default {
        lemma_position_from_bounds(s, i + 1);
    }
}

pub proof fn lemma_sink_position_bounds(s: Seq<SinkView>, index: u32, i: int)
    requires
        0 <= i <= s.len(),
    ensures
        i <= sink_position_from(s, index, i) <= s.len(),
        sink_position_from(s, index, i) < s.len() ==> s[sink_position_from(s, index, i)].index
            == index,
        forall|p: int| i <= p < sink_position_from(s, index, i) ==> (#[trigger] s[p]).index != index,
    decreases s.len() - i,
{
    if i < s.len() && s[i].index != index {
        lemma_sink_position_bounds(s, index, i + 1);
    }
}

pub proof fn lemma_input_position_bounds(s: Seq<SinkInputView>, index: u32, i: int)
    requires
        0 <= i <= s.len(),
    ensures
        i <= input_position_from(s, index, i) <= s.len(),
        input_position_from(s, index, i) < s.len() ==> s[input_position_from(s, index, i)].index
            == index,
    decreases s.len() - i,
{
    if i < s.len() && s[i].index != index {
        lemma_input_position_bounds(s, index, i + 1);
    }
}

/// Finds the first sink with this index.
pub fn find_sink(sinks: &Vec<Sink>, index: u32) -> (r: usize)
    ensures
        r as int == sink_position_from(sinks_view(sinks@), index, 0),
{
    let ghost s = sinks_view(sinks@);
    let mut i: usize = 0;
    while i < sinks.len()
        invariant
            0 <= i <= sinks@.len(),
            s == sinks_view(sinks@),
            sink_position_from(s, index, i as int) == sink_position_from(s, index, 0),
        decreases sinks@.len() - i,
    {
        if sinks[i].index == index {
            return i;
        }
        i = i + 1;
    }
    i
}

/// Finds the first stream with this index.
pub fn find_input(inputs: &Vec<SinkInput>, index: u32) -> (r: usize)
    ensures
        r as int == input_position_from(inputs_view(inputs@), index, 0),
{
    let ghost s = inputs_view(inputs@);
    let mut i: usize = 0;
    while i < inputs.len()
        invariant
            0 <= i <= inputs@.len(),
            s == inputs_view(inputs@),
            input_position_from(s, index, i as int) == input_position_from(s, index, 0),
        decreases inputs@.len() - i,
    {
        if inputs[i].index == index {
            return i;
        }
        i = i + 1;
    }
    i
}

/// Finds the first sink flagged default.
pub fn find_default(sinks: &Vec<Sink>) -> (r: usize)
    ensures
        r as int == default_position(sinks_view(sinks@)),
{
    let ghost s = sinks_view(sinks@);
    let mut i: usize = 0;
    while i < sinks.len()
        invariant
            0 <= i <= sinks@.len(),
            s == sinks_view(sinks@),
            default_position_from(s, i as int) == default_position(s),
        decreases sinks@.len() - i,
    {
        if sinks[i].is_default {
            return i;
        }
        i = i + 1;
    }
    i
}

} // verus!
