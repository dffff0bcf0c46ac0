//! Turns the text of the two listings of the control utility into records.
//!
//! A listing is made of blocks of key/value lines. Only the lines whose head
//! token is one of a few keys are kept ("key lines"); they are then taken in
//! groups of fixed size, one group per record, in the order of the text. A group
//! whose lines come in another order, or whose values are malformed, is dropped;
//! lines left over at the end, too few for a group, are discarded.
use vstd::prelude::*;
use crate::model::{
    inputs_view, sinks_view, Diagnostic, Listing, Sink, SinkInput, SinkInputView, SinkView,
};
use crate::text::{
    decimal_u32, is_delimiter, lemma_scan_bounds, lemma_stripped_has_no_delimiters, next_token,
    parse_decimal, range_equals, slice, strip_value, stripped, token_at, CharClass,
};

verus! {

/// The head tokens that the parser recognises.
#[derive(Clone, Copy, PartialEq, Eq, Structural, Debug)]
pub enum Word {
    Star,
    Equals,
    Index,
    Name,
    DeviceDescription,
    State,
    SinkRef,
    MediaName,
    ProcessBinary,
}

/// What a key line holds.
#[derive(Clone, Copy, PartialEq, Eq, Structural, Debug)]
pub enum Key {
    Index,
    Name,
    Description,
    State,
    SinkRef,
    Media,
    App,
}

pub open spec fn word_chars(w: Word) -> Seq<char> {
    match w {
        Word::Star => seq!['*'],
        Word::Equals => seq!['='],
        Word::Index => seq!['i', 'n', 'd', 'e', 'x', ':'],
        Word::Name => seq!['n', 'a', 'm', 'e', ':'],
        Word::DeviceDescription => seq![
            'd', 'e', 'v', 'i', 'c', 'e', '.', 'd', 'e', 's', 'c', 'r', 'i', 'p', 't', 'i', 'o', 'n',
        ],
        Word::State => seq!['s', 't', 'a', 't', 'e', ':'],
        Word::SinkRef => seq!['s', 'i', 'n', 'k', ':'],
        Word::MediaName => seq!['m', 'e', 'd', 'i', 'a', '.', 'n', 'a', 'm', 'e'],
        Word::ProcessBinary => seq![
            'a', 'p', 'p', 'l', 'i', 'c', 'a', 't', 'i', 'o', 'n', '.', 'p', 'r', 'o', 'c', 'e',
            's', 's', '.', 'b', 'i', 'n', 'a', 'r', 'y',
        ],
    }
}

/// The number of key lines that make one record of a listing.
pub open spec fn arity(l: Listing) -> int {
    match l {
        Listing::Sinks => 3,
        Listing::SinkInputs => 5,
    }
}

/// The first token of the line `[lo, hi)`.
pub open spec fn head(t: Seq<char>, lo: int, hi: int) -> (int, int) {
    token_at(t, lo, hi)
}

/// The token that follows the first one.
pub open spec fn second(t: Seq<char>, lo: int, hi: int) -> (int, int) {
    token_at(t, head(t, lo, hi).1, hi)
}

/// The token that follows the second one.
pub open spec fn third(t: Seq<char>, lo: int, hi: int) -> (int, int) {
    token_at(t, second(t, lo, hi).1, hi)
}

pub open spec fn is_word(t: Seq<char>, r: (int, int), w: Word) -> bool {
    slice(t, r) == word_chars(w)
}

/// The key of the line `[lo, hi)` in listing `l`, if it is a key line.
pub open spec fn line_key(t: Seq<char>, lo: int, hi: int, l: Listing) -> Option<Key> {
    let h = head(t, lo, hi);
    match l {
        Listing::Sinks => {
            if is_word(t, h, Word::Index) || (is_word(t, h, Word::Star) && is_word(
                t,
                second(t, lo, hi),
                Word::Index,
            )) {
                Some(Key::Index)
            } else if is_word(t, h, Word::Name) {
                Some(Key::Name)
            } else if is_word(t, h, Word::DeviceDescription) {
                Some(Key::Description)
            } else {
                None
            }
        },
        Listing::SinkInputs => {
            if is_word(t, h, Word::Index) {
                Some(Key::Index)
            } else if is_word(t, h, Word::State) {
                Some(Key::State)
            } else if is_word(t, h, Word::SinkRef) {
                Some(Key::SinkRef)
            } else if is_word(t, h, Word::MediaName) {
                Some(Key::Media)
            } else if is_word(t, h, Word::ProcessBinary) {
                Some(Key::App)
            } else {
                None
            }
        },
    }
}

pub open spec fn is_key_line(t: Seq<char>, lo: int, hi: int, l: Listing) -> bool {
    line_key(t, lo, hi, l) is Some
}

/// The key lines among the lines that end before position `n`, and the start
/// of the line that holds position `n`.
pub open spec fn keys_upto(t: Seq<char>, n: int, l: Listing) -> (Seq<(int, int)>, int)
    decreases n,
{
    if n <= 0 {
        (seq![], 0)
    } else {
        let prev = keys_upto(t, n - 1, l);
        if t[n - 1] == '\n' {
            if is_key_line(t, prev.1, n - 1, l) {
                (prev.0.push((prev.1, n - 1)), n)
            } else {
                (prev.0, n)
            }
        } else {
            prev
        }
    }
}

/// The ranges of the key lines of `t`, in order. Lines end at `'\n'`.
pub open spec fn key_lines(t: Seq<char>, l: Listing) -> Seq<(int, int)> {
    let last = keys_upto(t, t.len() as int, l);
    if is_key_line(t, last.1, t.len() as int, l) {
        last.0.push((last.1, t.len() as int))
    } else {
        last.0
    }
}

/// The index of a sink's index line, and whether it is flagged default.
pub open spec fn sink_index_value(t: Seq<char>, lo: int, hi: int) -> Option<(u32, bool)> {
    if is_word(t, head(t, lo, hi), Word::Star) {
        match decimal_u32(slice(t, third(t, lo, hi))) {
            Some(v) => Some((v, true)),
            None => None,
        }
    } else {
        match decimal_u32(slice(t, second(t, lo, hi))) {
            Some(v) => Some((v, false)),
            None => None,
        }
    }
}

/// The number that follows the head token.
pub open spec fn number_value(t: Seq<char>, lo: int, hi: int) -> Option<u32> {
    decimal_u32(slice(t, second(t, lo, hi)))
}

/// The token that follows the head token, if there is one.
pub open spec fn token_value(t: Seq<char>, lo: int, hi: int) -> Option<(int, int)> {
    let s = second(t, lo, hi);
    if s.0 < s.1 {
        Some(s)
    } else {
        None
    }
}

/// What follows the head token, stripped of blanks and delimiters.
pub open spec fn rest_value(t: Seq<char>, lo: int, hi: int) -> (int, int) {
    stripped(t, head(t, lo, hi).1, hi)
}

/// In a line `key = value`, the value stripped of blanks and delimiters.
pub open spec fn assigned_value(t: Seq<char>, lo: int, hi: int) -> Option<(int, int)> {
    let s = second(t, lo, hi);
    if is_word(t, s, Word::Equals) {
        Some(stripped(t, s.1, hi))
    } else {
        None
    }
}

pub open spec fn key_of(t: Seq<char>, r: (int, int), l: Listing) -> Option<Key> {
    line_key(t, r.0, r.1, l)
}

/// The sink that the group at position `g` of the key lines `ks` gives.
pub open spec fn sink_of_group(t: Seq<char>, ks: Seq<(int, int)>, g: int) -> Option<SinkView> {
    let r0 = ks[3 * g];
    let r1 = ks[3 * g + 1];
    let r2 = ks[3 * g + 2];
    if key_of(t, r0, Listing::Sinks) == Some(Key::Index) && key_of(t, r1, Listing::Sinks) == Some(
        Key::Name,
    ) && key_of(t, r2, Listing::Sinks) == Some(Key::Description) {
        match (sink_index_value(t, r0.0, r0.1), assigned_value(t, r2.0, r2.1)) {
            (Some(iv), Some(d)) => Some(
                SinkView {
                    index: iv.0,
                    name: slice(t, rest_value(t, r1.0, r1.1)),
                    description: slice(t, d),
                    is_default: iv.1,
                },
            ),
            _ => None,
        }
    } else {
        None
    }
}

/// The stream that the group at position `g` of the key lines `ks` gives.
pub open spec fn input_of_group(t: Seq<char>, ks: Seq<(int, int)>, g: int) -> Option<
    SinkInputView,
> {
    let r0 = ks[5 * g];
    let r1 = ks[5 * g + 1];
    let r2 = ks[5 * g + 2];
    let r3 = ks[5 * g + 3];
    let r4 = ks[5 * g + 4];
    let l = Listing::SinkInputs;
    if key_of(t, r0, l) == Some(Key::Index) && key_of(t, r1, l) == Some(Key::State) && key_of(
        t,
        r2,
        l,
    ) == Some(Key::SinkRef) && key_of(t, r3, l) == Some(Key::Media) && key_of(t, r4, l) == Some(
        Key::App,
    ) {
        match (
            number_value(t, r0.0, r0.1),
            token_value(t, r1.0, r1.1),
            number_value(t, r2.0, r2.1),
            assigned_value(t, r3.0, r3.1),
            assigned_value(t, r4.0, r4.1),
        ) {
            (Some(index), Some(state), Some(sink_index), Some(media), Some(app)) => Some(
                SinkInputView {
                    index,
                    state: slice(t, state),
                    sink_index,
                    media: slice(t, media),
                    app: slice(t, app),
                },
            ),
            _ => None,
        }
    } else {
        None
    }
}

pub open spec fn group_ok(t: Seq<char>, ks: Seq<(int, int)>, g: int, l: Listing) -> bool {
    match l {
        Listing::Sinks => sink_of_group(t, ks, g) is Some,
        Listing::SinkInputs => input_of_group(t, ks, g) is Some,
    }
}

/// The sinks of the first `g` groups, malformed groups left out.
pub open spec fn sinks_of_groups(t: Seq<char>, ks: Seq<(int, int)>, g: int) -> Seq<SinkView>
    decreases g,
{
    if g <= 0 {
        seq![]
    } else {
        let prev = sinks_of_groups(t, ks, g - 1);
        match sink_of_group(t, ks, g - 1) {
            Some(s) => prev.push(s),
            None => prev,
        }
    }
}

/// The streams of the first `g` groups, malformed groups left out.
pub open spec fn inputs_of_groups(t: Seq<char>, ks: Seq<(int, int)>, g: int) -> Seq<
    SinkInputView,
>
    decreases g,
{
    if g <= 0 {
        seq![]
    } else {
        let prev = inputs_of_groups(t, ks, g - 1);
        match input_of_group(t, ks, g - 1) {
            Some(s) => prev.push(s),
            None => prev,
        }
    }
}

/// One diagnostic for each malformed group among the first `g`.
pub open spec fn dropped_groups(t: Seq<char>, ks: Seq<(int, int)>, g: int, l: Listing) -> Seq<
    Diagnostic,
>
    decreases g,
{
    if g <= 0 {
        seq![]
    } else {
        let prev = dropped_groups(t, ks, g - 1, l);
        if group_ok(t, ks, g - 1, l) {
            prev
        } else {
            prev.push(Diagnostic::RecordDropped { listing: l, group: (g - 1) as usize })
        }
    }
}

/// The number of complete groups among the key lines.
pub open spec fn group_count(t: Seq<char>, l: Listing) -> int {
    key_lines(t, l).len() as int / arity(l)
}

/// The sinks that the text of the sinks listing holds.
pub open spec fn parsed_sinks(t: Seq<char>) -> Seq<SinkView> {
    sinks_of_groups(t, key_lines(t, Listing::Sinks), group_count(t, Listing::Sinks))
}

/// The streams that the text of the sink-inputs listing holds.
pub open spec fn parsed_inputs(t: Seq<char>) -> Seq<SinkInputView> {
    inputs_of_groups(t, key_lines(t, Listing::SinkInputs), group_count(t, Listing::SinkInputs))
}

/// The diagnostics of parsing listing `l`: the dropped groups in order, then
/// the discarded lines, if any.
pub open spec fn parse_diagnostics(t: Seq<char>, l: Listing) -> Seq<Diagnostic> {
    let ks = key_lines(t, l);
    let leftover = ks.len() as int % arity(l);
    dropped_groups(t, ks, group_count(t, l), l) + if leftover != 0 {
        seq![Diagnostic::PartialParse { listing: l, leftover: leftover as usize }]
    } else {
        seq![]
    }
}

pub open spec fn ranges_view(v: Seq<(usize, usize)>) -> Seq<(int, int)> {
    v.map_values(|p: (usize, usize)| (p.0 as int, p.1 as int))
}

/// Relies on `Iterator::collect` of std: a string made of the characters of
/// `[lo, hi)`, in order.
#[verifier::external_body]
fn string_of(t: &Vec<char>, lo: usize, hi: usize) -> (r: String)
    requires
        lo <= hi <= t@.len(),
    ensures
        r@ == t@.subrange(lo as int, hi as int),
{
    t[lo..hi].iter().collect()
}

/// Relies on `str::chars` of std, collected: the characters of `s`, in order.
#[verifier::external_body]
fn chars_of(s: &str) -> (r: Vec<char>)
    ensures
        r@ == s@,
{
    s.chars().collect()
}

fn word_vec(w: Word) -> (r: Vec<char>)
    ensures
        r@ == word_chars(w),
{
    match w {
        Word::Star => vec!['*'],
        Word::Equals => vec!['='],
        Word::Index => vec!['i', 'n', 'd', 'e', 'x', ':'],
        Word::Name => vec!['n', 'a', 'm', 'e', ':'],
        Word::DeviceDescription => vec![
            'd', 'e', 'v', 'i', 'c', 'e', '.', 'd', 'e', 's', 'c', 'r', 'i', 'p', 't', 'i', 'o', 'n',
        ],
        Word::State => vec!['s', 't', 'a', 't', 'e', ':'],
        Word::SinkRef => vec!['s', 'i', 'n', 'k', ':'],
        Word::MediaName => vec!['m', 'e', 'd', 'i', 'a', '.', 'n', 'a', 'm', 'e'],
        Word::ProcessBinary => vec![
            'a', 'p', 'p', 'l', 'i', 'c', 'a', 't', 'i', 'o', 'n', '.', 'p', 'r', 'o', 'c', 'e',
            's', 's', '.', 'b', 'i', 'n', 'a', 'r', 'y',
        ],
    }
}

fn token_is(t: &Vec<char>, r: (usize, usize), w: Word) -> (b: bool)
    requires
        r.0 <= r.1 <= t@.len(),
    ensures
        b == is_word(t@, (r.0 as int, r.1 as int), w),
{
    let v = word_vec(w);
    range_equals(t, r.0, r.1, &v)
}

/// Classifies the line `[lo, hi)`.
pub fn classify_line(t: &Vec<char>, lo: usize, hi: usize, l: Listing) -> (r: Option<Key>)
    requires
        lo <= hi <= t@.len(),
    ensures
        r == line_key(t@, lo as int, hi as int, l),
{
    let h = next_token(t, lo, hi);
    match l {
        Listing::Sinks => {
            if token_is(t, h, Word::Index) {
                Some(Key::Index)
            } else if token_is(t, h, Word::Star) && token_is(t, next_token(t, h.1, hi), Word::Index) {
                Some(Key::Index)
            } else if token_is(t, h, Word::Name) {
                Some(Key::Name)
            } else if token_is(t, h, Word::DeviceDescription) {
                Some(Key::Description)
            } else {
                None
            }
        },
        Listing::SinkInputs => {
            if token_is(t, h, Word::Index) {
                Some(Key::Index)
            } else if token_is(t, h, Word::State) {
                Some(Key::State)
            } else if token_is(t, h, Word::SinkRef) {
                Some(Key::SinkRef)
            } else if token_is(t, h, Word::MediaName) {
                Some(Key::Media)
            } else if token_is(t, h, Word::ProcessBinary) {
                Some(Key::App)
            } else {
                None
            }
        },
    }
}

/// The ranges of the key lines of `t`, in order.
pub fn collect_key_lines(t: &Vec<char>, l: Listing) -> (r: Vec<(usize, usize)>)
    ensures
        ranges_view(r@) == key_lines(t@, l),
        forall|k: int| 0 <= k < r@.len() ==> (#[trigger] r@[k]).0 <= r@[k].1 <= t@.len(),
{
    let mut keys: Vec<(usize, usize)> = Vec::new();
    let mut start: usize = 0;
    let mut i: usize = 0;
    while i < t.len()
        invariant
            0 <= start <= i <= t@.len(),
            ranges_view(keys@) == keys_upto(t@, i as int, l).0,
            start as int == keys_upto(t@, i as int, l).1,
            forall|k: int| 0 <= k < keys@.len() ==> (#[trigger] keys@[k]).0 <= keys@[k].1 <= t@.len(),
        decreases t@.len() - i,
    {
        if t[i] == '\n' {
            if classify_line(t, start, i, l).is_some() {
                let ghost before = keys@;
                keys.push((start, i));
                assert(ranges_view(keys@) =~= ranges_view(before).push((start as int, i as int)));
            }
            start = i + 1;
        }
        i = i + 1;
    }
    if classify_line(t, start, t.len(), l).is_some() {
        let ghost before = keys@;
        keys.push((start, t.len()));
        assert(ranges_view(keys@) =~= ranges_view(before).push((start as int, t@.len() as int)));
    }
    keys
}

fn read_sink_index(t: &Vec<char>, lo: usize, hi: usize) -> (r: Option<(u32, bool)>)
    requires
        lo <= hi <= t@.len(),
    ensures
        r == sink_index_value(t@, lo as int, hi as int),
{
    let h = next_token(t, lo, hi);
    let s = next_token(t, h.1, hi);
    if token_is(t, h, Word::Star) {
        let n = next_token(t, s.1, hi);
        match parse_decimal(t, n.0, n.1) {
            Some(v) => Some((v, true)),
            None => None,
        }
    } else {
        match parse_decimal(t, s.0, s.1) {
            Some(v) => Some((v, false)),
            None => None,
        }
    }
}

fn read_number(t: &Vec<char>, lo: usize, hi: usize) -> (r: Option<u32>)
    requires
        lo <= hi <= t@.len(),
    ensures
        r == number_value(t@, lo as int, hi as int),
{
    let h = next_token(t, lo, hi);
    let s = next_token(t, h.1, hi);
    parse_decimal(t, s.0, s.1)
}

fn read_token(t: &Vec<char>, lo: usize, hi: usize) -> (r: Option<(usize, usize)>)
    requires
        lo <= hi <= t@.len(),
    ensures
        r is Some == token_value(t@, lo as int, hi as int) is Some,
        r is Some ==> (r.unwrap().0 as int, r.unwrap().1 as int) == token_value(
            t@,
            lo as int,
            hi as int,
        ).unwrap(),
        r is Some ==> r.unwrap().0 <= r.unwrap().1 <= t@.len(),
{
    let h = next_token(t, lo, hi);
    let s = next_token(t, h.1, hi);
    if s.0 < s.1 {
        Some(s)
    } else {
        None
    }
}

fn read_rest(t: &Vec<char>, lo: usize, hi: usize) -> (r: (usize, usize))
    requires
        lo <= hi <= t@.len(),
    ensures
        (r.0 as int, r.1 as int) == rest_value(t@, lo as int, hi as int),
        r.0 <= r.1 <= t@.len(),
{
    let h = next_token(t, lo, hi);
    strip_value(t, h.1, hi)
}

fn read_assigned(t: &Vec<char>, lo: usize, hi: usize) -> (r: Option<(usize, usize)>)
    requires
        lo <= hi <= t@.len(),
    ensures
        r is Some == assigned_value(t@, lo as int, hi as int) is Some,
        r is Some ==> (r.unwrap().0 as int, r.unwrap().1 as int) == assigned_value(
            t@,
            lo as int,
            hi as int,
        ).unwrap(),
        r is Some ==> r.unwrap().0 <= r.unwrap().1 <= t@.len(),
{
    let h = next_token(t, lo, hi);
    let s = next_token(t, h.1, hi);
    if token_is(t, s, Word::Equals) {
        Some(strip_value(t, s.1, hi))
    } else {
        None
    }
}

/// Builds the sink of the group at position `g`, if the group is well formed.
pub fn sink_from_group(t: &Vec<char>, ks: &Vec<(usize, usize)>, g: usize) -> (r: Option<Sink>)
    requires
        3 * g + 3 <= ks@.len(),
        forall|k: int| 0 <= k < ks@.len() ==> (#[trigger] ks@[k]).0 <= ks@[k].1 <= t@.len(),
    ensures
        r is Some == sink_of_group(t@, ranges_view(ks@), g as int) is Some,
        r is Some ==> r.unwrap()@ == sink_of_group(t@, ranges_view(ks@), g as int).unwrap(),
{
    let ghost rv = ranges_view(ks@);
    let n = ks.len();
    assert(3 * g + 3 <= n);
    let r0 = ks[3 * g];
    let r1 = ks[3 * g + 1];
    let r2 = ks[3 * g + 2];
    assert(rv[3 * g] == (r0.0 as int, r0.1 as int));
    assert(rv[3 * g + 1] == (r1.0 as int, r1.1 as int));
    assert(rv[3 * g + 2] == (r2.0 as int, r2.1 as int));
    let k0 = classify_line(t, r0.0, r0.1, Listing::Sinks);
    let k1 = classify_line(t, r1.0, r1.1, Listing::Sinks);
    let k2 = classify_line(t, r2.0, r2.1, Listing::Sinks);
    if !(k0 == Some(Key::Index) && k1 == Some(Key::Name) && k2 == Some(Key::Description)) {
        return None;
    }
    let iv = read_sink_index(t, r0.0, r0.1);
    let d = read_assigned(t, r2.0, r2.1);
    match (iv, d) {
        (Some(iv), Some(d)) => {
            let n = read_rest(t, r1.0, r1.1);
            Some(
                Sink {
                    index: iv.0,
                    name: string_of(t, n.0, n.1),
                    description: string_of(t, d.0, d.1),
                    is_default: iv.1,
                },
            )
        },
        _ => None,
    }
}

/// Builds the stream of the group at position `g`, if the group is well formed.
pub fn input_from_group(t: &Vec<char>, ks: &Vec<(usize, usize)>, g: usize) -> (r: Option<
    SinkInput,
>)
    requires
        5 * g + 5 <= ks@.len(),
        forall|k: int| 0 <= k < ks@.len() ==> (#[trigger] ks@[k]).0 <= ks@[k].1 <= t@.len(),
    ensures
        r is Some == input_of_group(t@, ranges_view(ks@), g as int) is Some,
        r is Some ==> r.unwrap()@ == input_of_group(t@, ranges_view(ks@), g as int).unwrap(),
{
    let ghost rv = ranges_view(ks@);
    let n = ks.len();
    assert(5 * g + 5 <= n);
    let r0 = ks[5 * g];
    let r1 = ks[5 * g + 1];
    let r2 = ks[5 * g + 2];
    let r3 = ks[5 * g + 3];
    let r4 = ks[5 * g + 4];
    assert(rv[5 * g] == (r0.0 as int, r0.1 as int));
    assert(rv[5 * g + 1] == (r1.0 as int, r1.1 as int));
    assert(rv[5 * g + 2] == (r2.0 as int, r2.1 as int));
    assert(rv[5 * g + 3] == (r3.0 as int, r3.1 as int));
    assert(rv[5 * g + 4] == (r4.0 as int, r4.1 as int));
    let l = Listing::SinkInputs;
    if !(classify_line(t, r0.0, r0.1, l) == Some(Key::Index) && classify_line(t, r1.0, r1.1, l)
        == Some(Key::State) && classify_line(t, r2.0, r2.1, l) == Some(Key::SinkRef)
        && classify_line(t, r3.0, r3.1, l) == Some(Key::Media) && classify_line(t, r4.0, r4.1, l)
        == Some(Key::App)) {
        return None;
    }
    let index = read_number(t, r0.0, r0.1);
    let state = read_token(t, r1.0, r1.1);
    let sink_index = read_number(t, r2.0, r2.1);
    let media = read_assigned(t, r3.0, r3.1);
    let app = read_assigned(t, r4.0, r4.1);
    match (index, state, sink_index, media, app) {
        (Some(index), Some(state), Some(sink_index), Some(media), Some(app)) => Some(
            SinkInput {
                index,
                state: string_of(t, state.0, state.1),
                sink_index,
                media: string_of(t, media.0, media.1),
                app: string_of(t, app.0, app.1),
            },
        ),
        _ => None,
    }
}

/// Parses the text of the sinks listing: the sinks in order, and the
/// diagnostics of the groups that were dropped or discarded.
pub fn parse_sinks(text: &str) -> (r: (Vec<Sink>, Vec<Diagnostic>))
    ensures
        sinks_view(r.0@) == parsed_sinks(text@),
        r.1@ == parse_diagnostics(text@, Listing::Sinks),
{
    let t = chars_of(text);
    let ks = collect_key_lines(&t, Listing::Sinks);
    let ghost rv = ranges_view(ks@);
    let groups = ks.len() / 3;
    let mut records: Vec<Sink> = Vec::new();
    let mut diagnostics: Vec<Diagnostic> = Vec::new();
    let mut g: usize = 0;
    while g < groups
        invariant
            t@ == text@,
            rv == ranges_view(ks@),
            rv == key_lines(t@, Listing::Sinks),
            groups == ks@.len() / 3,
            0 <= g <= groups,
            forall|k: int| 0 <= k < ks@.len() ==> (#[trigger] ks@[k]).0 <= ks@[k].1 <= t@.len(),
            sinks_view(records@) == sinks_of_groups(t@, rv, g as int),
            diagnostics@ == dropped_groups(t@, rv, g as int, Listing::Sinks),
        decreases groups - g,
    {
        match sink_from_group(&t, &ks, g) {
            Some(s) => {
                let ghost before = records@;
                records.push(s);
                assert(sinks_view(records@) =~= sinks_view(before).push(s@));
            },
            None => {
                diagnostics.push(Diagnostic::RecordDropped { listing: Listing::Sinks, group: g });
            },
        }
        g = g + 1;
    }
    let leftover = ks.len() % 3;
    if leftover != 0 {
        diagnostics.push(Diagnostic::PartialParse { listing: Listing::Sinks, leftover });
    } else {
        assert(diagnostics@ =~= diagnostics@ + seq![]);
    }
    (records, diagnostics)
}

/// Parses the text of the sink-inputs listing: the streams in order, and the
/// diagnostics of the groups that were dropped or discarded.
pub fn parse_sink_inputs(text: &str) -> (r: (Vec<SinkInput>, Vec<Diagnostic>))
    ensures
        inputs_view(r.0@) == parsed_inputs(text@),
        r.1@ == parse_diagnostics(text@, Listing::SinkInputs),
{
    let t = chars_of(text);
    let ks = collect_key_lines(&t, Listing::SinkInputs);
    let ghost rv = ranges_view(ks@);
    let groups = ks.len() / 5;
    let mut records: Vec<SinkInput> = Vec::new();
    let mut diagnostics: Vec<Diagnostic> = Vec::new();
    let mut g: usize = 0;
    while g < groups
        invariant
            t@ == text@,
            rv == ranges_view(ks@),
            rv == key_lines(t@, Listing::SinkInputs),
            groups == ks@.len() / 5,
            0 <= g <= groups,
            forall|k: int| 0 <= k < ks@.len() ==> (#[trigger] ks@[k]).0 <= ks@[k].1 <= t@.len(),
            inputs_view(records@) == inputs_of_groups(t@, rv, g as int),
            diagnostics@ == dropped_groups(t@, rv, g as int, Listing::SinkInputs),
        decreases groups - g,
    {
        match input_from_group(&t, &ks, g) {
            Some(s) => {
                let ghost before = records@;
                records.push(s);
                assert(inputs_view(records@) =~= inputs_view(before).push(s@));
            },
            None => {
                diagnostics.push(
                    Diagnostic::RecordDropped { listing: Listing::SinkInputs, group: g },
                );
            },
        }
        g = g + 1;
    }
    let leftover = ks.len() % 5;
    if leftover != 0 {
        diagnostics.push(Diagnostic::PartialParse { listing: Listing::SinkInputs, leftover });
    } else {
        assert(diagnostics@ =~= diagnostics@ + seq![]);
    }
    (records, diagnostics)
}

/// The number of records that listing `l` of text `t` gives.
pub open spec fn record_count(t: Seq<char>, l: Listing) -> int {
    match l {
        Listing::Sinks => parsed_sinks(t).len() as int,
        Listing::SinkInputs => parsed_inputs(t).len() as int,
    }
}

/// A value that neither starts nor ends with a delimiter.
pub open spec fn undelimited(v: Seq<char>) -> bool {
    v.len() > 0 ==> !is_delimiter(v[0]) && !is_delimiter(v.last())
}

proof fn lemma_groups_split(t: Seq<char>, ks: Seq<(int, int)>, g: int, l: Listing)
    requires
        0 <= g,
    ensures
        l == Listing::Sinks ==> sinks_of_groups(t, ks, g).len() + dropped_groups(t, ks, g, l).len()
            == g,
        l == Listing::SinkInputs ==> inputs_of_groups(t, ks, g).len() + dropped_groups(
            t,
            ks,
            g,
            l,
        ).len() == g,
        (forall|h: int| 0 <= h < g ==> group_ok(t, ks, h, l)) ==> dropped_groups(t, ks, g, l).len()
            == 0,
    decreases g,
{
    if g > 0 {
        lemma_groups_split(t, ks, g - 1, l);
    }
}

/// Each complete group of key lines gives either one record or one
/// dropped-group diagnostic; where no group is malformed, the records are
/// exactly as many as the complete groups.
pub proof fn lemma_records_match_groups(t: Seq<char>, l: Listing)
    ensures
        record_count(t, l) + dropped_groups(t, key_lines(t, l), group_count(t, l), l).len()
            == group_count(t, l),
        (forall|g: int| 0 <= g < group_count(t, l) ==> group_ok(t, key_lines(t, l), g, l))
            ==> record_count(t, l) == group_count(t, l),
{
    lemma_groups_split(t, key_lines(t, l), group_count(t, l), l);
}

proof fn lemma_keys_upto_in_text(t: Seq<char>, n: int, l: Listing)
    requires
        0 <= n <= t.len(),
    ensures
        0 <= keys_upto(t, n, l).1 <= n,
        forall|k: int|
            0 <= k < keys_upto(t, n, l).0.len() ==> 0 <= (#[trigger] keys_upto(t, n, l).0[k]).0
                <= keys_upto(t, n, l).0[k].1 <= n,
    decreases n,
{
    if n > 0 {
        lemma_keys_upto_in_text(t, n - 1, l);
    }
}

proof fn lemma_key_lines_in_text(t: Seq<char>, l: Listing)
    ensures
        forall|k: int|
            0 <= k < key_lines(t, l).len() ==> 0 <= (#[trigger] key_lines(t, l)[k]).0 <= key_lines(
                t,
                l,
            )[k].1 <= t.len(),
{
    lemma_keys_upto_in_text(t, t.len() as int, l);
}

proof fn lemma_tokens_in_line(t: Seq<char>, lo: int, hi: int)
    requires
        lo <= hi,
    ensures
        lo <= head(t, lo, hi).0 <= head(t, lo, hi).1 <= second(t, lo, hi).0 <= second(t, lo, hi).1
            <= hi,
{
    lemma_scan_bounds(t, lo, hi, CharClass::Space);
    let h = head(t, lo, hi);
    lemma_scan_bounds(t, h.0, hi, CharClass::Word);
    lemma_scan_bounds(t, h.1, hi, CharClass::Space);
    lemma_scan_bounds(t, second(t, lo, hi).0, hi, CharClass::Word);
}

proof fn lemma_sink_groups_undelimited(t: Seq<char>, ks: Seq<(int, int)>, g: int)
    requires
        0 <= g,
        3 * g <= ks.len(),
        forall|k: int| 0 <= k < ks.len() ==> 0 <= (#[trigger] ks[k]).0 <= ks[k].1 <= t.len(),
    ensures
        forall|k: int|
            0 <= k < sinks_of_groups(t, ks, g).len() ==> undelimited(
                (#[trigger] sinks_of_groups(t, ks, g)[k]).name,
            ) && undelimited(sinks_of_groups(t, ks, g)[k].description),
    decreases g,
{
    if g > 0 {
        lemma_sink_groups_undelimited(t, ks, g - 1);
        let r1 = ks[3 * (g - 1) + 1];
        let r2 = ks[3 * (g - 1) + 2];
        lemma_tokens_in_line(t, r1.0, r1.1);
        lemma_tokens_in_line(t, r2.0, r2.1);
        lemma_stripped_has_no_delimiters(t, head(t, r1.0, r1.1).1, r1.1);
        lemma_stripped_has_no_delimiters(t, second(t, r2.0, r2.1).1, r2.1);
        let prev = sinks_of_groups(t, ks, g - 1);
        match sink_of_group(t, ks, g - 1) {
            Some(s) => {
                assert(undelimited(s.name));
                assert(undelimited(s.description));
                assert forall|k: int| 0 <= k < prev.len() + 1 implies undelimited(
                    (#[trigger] prev.push(s)[k]).name,
                ) && undelimited(prev.push(s)[k].description) by {
                    if k < prev.len() {
                        assert(prev.push(s)[k] == prev[k]);
                    }
                }
            },
            None => {},
        }
    }
}

/// Every sink that the parser gives has a name and a description that neither
/// start nor end with a quote or an angle bracket.
pub proof fn lemma_sink_fields_undelimited(t: Seq<char>)
    ensures
        forall|k: int|
            0 <= k < parsed_sinks(t).len() ==> undelimited((#[trigger] parsed_sinks(t)[k]).name)
                && undelimited(parsed_sinks(t)[k].description),
{
    lemma_key_lines_in_text(t, Listing::Sinks);
    lemma_sink_groups_undelimited(t, key_lines(t, Listing::Sinks), group_count(t, Listing::Sinks));
}

} // verus!
