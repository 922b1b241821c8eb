//! Loopback capture device selection.
//!
//! The audio stack exposes no explicit "capture what is playing" primitive,
//! so the selector searches the enumerated input devices by name. Names are
//! handled as byte strings. The search order, first match winning:
//! an input whose ASCII-lowercased name carries the loopback marker and
//! which mentions the default output device's name; then any input whose
//! lowercased name carries the marker; then the system default input (a
//! degraded fallback: it may capture a microphone rather than system audio);
//! and if no input exists at all, no device.

use vstd::prelude::*;

verus! {

/// ASCII lowercase of one byte.
pub open spec fn lower_byte(b: u8) -> u8 {
    if 65 <= b <= 90 {
        (b + 32) as u8
    } else {
        b
    }
}

/// ASCII lowercase of a name's bytes.
pub open spec fn spec_lower(s: Seq<u8>) -> Seq<u8> {
    s.map_values(|b: u8| lower_byte(b))
}

/// Whether `needle` occurs as a contiguous run of bytes inside `hay`.
pub open spec fn spec_contains(hay: Seq<u8>, needle: Seq<u8>) -> bool {
    exists|i: int|
        0 <= i <= hay.len() - needle.len() && #[trigger] hay.subrange(i, i + needle.len() as int)
            == needle
}

/// The marker ("loopback") that a device name carries when it taps the
/// signal sent to an output.
pub open spec fn loopback_marker() -> Seq<u8> {
    seq![108u8, 111u8, 111u8, 112u8, 98u8, 97u8, 99u8, 107u8]
}

/// Whether the name, lowercased, carries the loopback marker.
pub open spec fn is_loopback_name(name: Seq<u8>) -> bool {
    spec_contains(spec_lower(name), loopback_marker())
}

/// Whether the name carries the loopback marker and also mentions the
/// default output device's name (when one is known).
pub open spec fn matches_output(name: Seq<u8>, out: Option<Seq<u8>>) -> bool {
    match out {
        Some(o) => is_loopback_name(name) && spec_contains(name, o),
        None => false,
    }
}

/// The index of the first name satisfying `p`, if any.
pub open spec fn first_where(names: Seq<Seq<u8>>, p: spec_fn(Seq<u8>) -> bool) -> Option<int>
    decreases names.len(),
{
    if names.len() == 0 {
        None
    } else if p(names[0]) {
        Some(0)
    } else {
        match first_where(names.drop_first(), p) {
            Some(i) => Some(i + 1),
            None => None,
        }
    }
}

/// `first_where` returns exactly the least satisfying index.
pub proof fn lemma_first_where_some(names: Seq<Seq<u8>>, p: spec_fn(Seq<u8>) -> bool, i: int)
    requires
        0 <= i < names.len(),
        p(names[i]),
        forall|j: int| 0 <= j < i ==> !p(#[trigger] names[j]),
    ensures
        first_where(names, p) == Some(i),
    decreases names.len(),
{
    if i == 0 {
    } else {
        assert(!p(names[0]));
        let rest = names.drop_first();
        assert(rest[i - 1] == names[i]);
        assert forall|j: int| 0 <= j < i - 1 implies !p(#[trigger] rest[j]) by {
            assert(rest[j] == names[j + 1]);
        }
        lemma_first_where_some(rest, p, i - 1);
    }
}

/// When no name satisfies `p`, `first_where` finds nothing.
pub proof fn lemma_first_where_none(names: Seq<Seq<u8>>, p: spec_fn(Seq<u8>) -> bool)
    requires
        forall|j: int| 0 <= j < names.len() ==> !p(#[trigger] names[j]),
    ensures
        first_where(names, p) is None,
    decreases names.len(),
{
    if names.len() > 0 {
        let rest = names.drop_first();
        assert forall|j: int| 0 <= j < rest.len() implies !p(#[trigger] rest[j]) by {
            assert(rest[j] == names[j + 1]);
        }
        lemma_first_where_none(rest, p);
    }
}

/// The loopback-and-output-name test, as a predicate on names.
pub open spec fn pred_matches_output(out: Option<Seq<u8>>) -> spec_fn(Seq<u8>) -> bool {
    |n: Seq<u8>| matches_output(n, out)
}

/// The loopback-marker test, as a predicate on names.
pub open spec fn pred_loopback() -> spec_fn(Seq<u8>) -> bool {
    |n: Seq<u8>| is_loopback_name(n)
}

/// The outcome of the device search.
#[derive(Clone, Copy, Debug, PartialEq, Eq)]
pub enum DeviceChoice {
    /// The input device at this index of the enumerated list.
    Input(usize),
    /// The system default input: a degraded fallback that may capture a
    /// microphone rather than system audio.
    DefaultInput,
    /// No input device exists at all; capture is impossible.
    NoDevice,
}

/// The prioritized selection over the enumerated input device names.
pub open spec fn spec_select(
    out: Option<Seq<u8>>,
    names: Seq<Seq<u8>>,
    has_default_input: bool,
) -> DeviceChoice {
    match first_where(names, pred_matches_output(out)) {
        Some(i) => DeviceChoice::Input(i as usize),
        None => match first_where(names, pred_loopback()) {
            Some(i) => DeviceChoice::Input(i as usize),
            None => if has_default_input {
                DeviceChoice::DefaultInput
            } else {
                DeviceChoice::NoDevice
            },
        },
    }
}

/// The view of an optional borrowed name.
pub open spec fn opt_name_view(o: Option<&Vec<u8>>) -> Option<Seq<u8>> {
    match o {
        Some(v) => Some(v@),
        None => None,
    }
}

/// The loopback marker as bytes ("loopback").
fn loopback_marker_bytes() -> (m: Vec<u8>)
    ensures
        m@ == loopback_marker(),
{
    let mut m: Vec<u8> = Vec::new();
    m.push(108);
    m.push(111);
    m.push(111);
    m.push(112);
    m.push(98);
    m.push(97);
    m.push(99);
    m.push(107);
    proof {
        assert(m@ =~= loopback_marker());
    }
    m
}

/// ASCII lowercase of a name.
fn lower_ascii(name: &Vec<u8>) -> (low: Vec<u8>)
    ensures
        low@ == spec_lower(name@),
{
    let mut low: Vec<u8> = Vec::new();
    let mut i: usize = 0;
    while i < name.len()
        invariant
            0 <= i <= name@.len(),
            low@.len() == i,
            forall|j: int| 0 <= j < i ==> low@[j] == lower_byte(#[trigger] name@[j]),
        decreases name@.len() - i,
    {
        let b = name[i];
        if 65 <= b && b <= 90 {
            low.push(b + 32);
        } else {
            low.push(b);
        }
        i = i + 1;
    }
    proof {
        assert(low@ =~= spec_lower(name@));
    }
    low
}

/// Whether `needle`'s bytes match `hay` starting at `at`.
fn matches_at(hay: &Vec<u8>, needle: &Vec<u8>, at: usize) -> (r: bool)
    requires
        at + needle@.len() <= hay@.len(),
    ensures
        r == (hay@.subrange(at as int, at + needle@.len() as int) == needle@),
{
    proof {
        vstd::std_specs::vec::axiom_spec_len(hay);
    }
    let ghost window = hay@.subrange(at as int, at + needle@.len() as int);
    let mut j: usize = 0;
    while j < needle.len()
        invariant
            at + needle@.len() <= hay@.len(),
            hay@.len() <= usize::MAX,
            0 <= j <= needle@.len(),
            window == hay@.subrange(at as int, at + needle@.len() as int),
            forall|k: int| 0 <= k < j ==> hay@[at + k] == #[trigger] needle@[k],
        decreases needle@.len() - j,
    {
        if hay[at + j] != needle[j] {
            proof {
                assert(window[j as int] != needle@[j as int]);
            }
            return false;
        }
        j = j + 1;
    }
    proof {
        assert(window =~= needle@);
    }
    true
}

/// Whether `needle` occurs as a contiguous run of bytes inside `hay`.
fn contains_bytes(hay: &Vec<u8>, needle: &Vec<u8>) -> (r: bool)
    ensures
        r == spec_contains(hay@, needle@),
{
    if needle.len() > hay.len() {
        return false;
    }
    let end = hay.len() - needle.len();
    let mut i: usize = 0;
    while i <= end
        invariant
            needle@.len() <= hay@.len(),
            end == hay@.len() - needle@.len(),
            0 <= i <= end + 1,
            forall|j: int|
                0 <= j < i ==> #[trigger] hay@.subrange(j, j + needle@.len() as int) != needle@,
        decreases end + 1 - i,
    {
        if matches_at(hay, needle, i) {
            return true;
        }
        proof {
            vstd::std_specs::vec::axiom_spec_len(hay);
            if needle@.len() == 0 {
                assert(hay@.subrange(i as int, i as int) =~= needle@);
            }
        }
        i = i + 1;
    }
    false
}

/// Choose a capture device from the enumerated input device names, the
/// default output device's name (when known), and whether a default input
/// exists. First match wins: a loopback-marked input mentioning the output's
/// name; then any loopback-marked input; then the default input; else none.
pub fn select_loopback_device(
    default_output: Option<&Vec<u8>>,
    input_names: &Vec<Vec<u8>>,
    has_default_input: bool,
) -> (c: DeviceChoice)
    ensures
        c == spec_select(opt_name_view(default_output), input_names.deep_view(), has_default_input),
{
    let ghost names = input_names.deep_view();
    let ghost out = opt_name_view(default_output);
    proof {
        assert(names.len() == input_names@.len());
    }
    let marker = loopback_marker_bytes();
    if let Some(out_name) = default_output {
        let mut i: usize = 0;
        while i < input_names.len()
            invariant
                names == input_names.deep_view(),
                out == Some(out_name@),
                out == opt_name_view(default_output),
                marker@ == loopback_marker(),
                0 <= i <= names.len(),
                names.len() == input_names@.len(),
                forall|j: int| 0 <= j < i ==> !pred_matches_output(out)(#[trigger] names[j]),
            decreases names.len() - i,
        {
            proof {
                assert(names[i as int] == input_names@[i as int]@);
            }
            let low = lower_ascii(&input_names[i]);
            if contains_bytes(&low, &marker) && contains_bytes(&input_names[i], out_name) {
                proof {
                    assert(pred_matches_output(out)(names[i as int]));
                    lemma_first_where_some(names, pred_matches_output(out), i as int);
                }
                return DeviceChoice::Input(i);
            }
            proof {
                assert(!pred_matches_output(out)(names[i as int]));
            }
            i = i + 1;
        }
        proof {
            lemma_first_where_none(names, pred_matches_output(out));
        }
    } else {
        proof {
            assert(forall|j: int|
                0 <= j < names.len() ==> !pred_matches_output(out)(#[trigger] names[j]));
            lemma_first_where_none(names, pred_matches_output(out));
        }
    }
    let mut i: usize = 0;
    while i < input_names.len()
        invariant
            names == input_names.deep_view(),
            out == opt_name_view(default_output),
            first_where(names, pred_matches_output(out)) is None,
            marker@ == loopback_marker(),
            0 <= i <= names.len(),
            names.len() == input_names@.len(),
            forall|j: int| 0 <= j < i ==> !pred_loopback()(#[trigger] names[j]),
        decreases names.len() - i,
    {
        proof {
            assert(names[i as int] == input_names@[i as int]@);
        }
        let low = lower_ascii(&input_names[i]);
        if contains_bytes(&low, &marker) {
            proof {
                assert(pred_loopback()(names[i as int]));
                lemma_first_where_some(names, pred_loopback(), i as int);
            }
            return DeviceChoice::Input(i);
        }
        proof {
            assert(!pred_loopback()(names[i as int]));
        }
        i = i + 1;
    }
    proof {
        lemma_first_where_none(names, pred_loopback());
    }
    if has_default_input {
        DeviceChoice::DefaultInput
    } else {
        DeviceChoice::NoDevice
    }
}

} // verus!
