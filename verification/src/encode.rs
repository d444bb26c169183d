//! The text encoding of the output document: a pure, deterministic mapping
//! from a [`File`] to its JSON form, stated character by character by the
//! spec functions here and proved of the encoder.

use vstd::prelude::*;

use crate::speedscope::{Event, EventedProfile, File, Frame, ValueUnit};

verus! {

/// The decimal digit character for `d`.
pub open spec fn dec_digit(d: nat) -> char {
    if d == 0 {
        '0'
    } else if d == 1 {
        '1'
    } else if d == 2 {
        '2'
    } else if d == 3 {
        '3'
    } else if d == 4 {
        '4'
    } else if d == 5 {
        '5'
    } else if d == 6 {
        '6'
    } else if d == 7 {
        '7'
    } else if d == 8 {
        '8'
    } else {
        '9'
    }
}

/// The decimal rendering of `n`, most significant digit first, no leading
/// zeros except for zero itself.
pub open spec fn dec_chars(n: nat) -> Seq<char>
    decreases n,
{
    if n < 10 {
        seq![dec_digit(n)]
    } else {
        dec_chars(n / 10).push(dec_digit(n % 10))
    }
}

/// The lower-case hexadecimal digit character for `d`.
pub open spec fn hex_digit(d: nat) -> char {
    if d < 10 {
        dec_digit(d)
    } else if d == 10 {
        'a'
    } else if d == 11 {
        'b'
    } else if d == 12 {
        'c'
    } else if d == 13 {
        'd'
    } else if d == 14 {
        'e'
    } else {
        'f'
    }
}

/// How one character appears inside a JSON string literal: quotes and
/// backslashes are escaped, control characters take the `\u00..` form, and
/// every other character stands for itself.
pub open spec fn escape_char(c: char) -> Seq<char> {
    if c == '"' {
        seq!['\\', '"']
    } else if c == '\\' {
        seq!['\\', '\\']
    } else if (c as u32) < 32 {
        seq!['\\', 'u', '0', '0', hex_digit(((c as u32) / 16) as nat), hex_digit(
            ((c as u32) % 16) as nat,
        )]
    } else {
        seq![c]
    }
}

/// The body of a JSON string literal for `s`.
pub open spec fn escaped(s: Seq<char>) -> Seq<char>
    decreases s.len(),
{
    if s.len() == 0 {
        Seq::empty()
    } else {
        escaped(s.drop_last()) + escape_char(s.last())
    }
}

/// The JSON string literal for `s`, quotes included.
pub open spec fn json_string(s: Seq<char>) -> Seq<char> {
    seq!['"'] + escaped(s) + seq!['"']
}

/// The JSON object for one frame descriptor; absent location fields are
/// omitted.
pub open spec fn frame_json(f: Frame) -> Seq<char> {
    "{\"name\":"@ + json_string(f.name@) + (match f.file {
        Option::Some(file) => ",\"file\":"@ + json_string(file@),
        Option::None => Seq::<char>::empty(),
    }) + (match f.line {
        Option::Some(line) => ",\"line\":"@ + dec_chars(line as nat),
        Option::None => Seq::<char>::empty(),
    }) + (match f.col {
        Option::Some(col) => ",\"col\":"@ + dec_chars(col as nat),
        Option::None => Seq::<char>::empty(),
    }) + "}"@
}

/// The frame table, comma separated.
pub open spec fn frames_json(frames: Seq<Frame>) -> Seq<char>
    decreases frames.len(),
{
    if frames.len() == 0 {
        Seq::empty()
    } else if frames.len() == 1 {
        frame_json(frames[0])
    } else {
        frames_json(frames.drop_last()) + ","@ + frame_json(frames.last())
    }
}

/// The JSON string for a unit.
pub open spec fn unit_json(u: ValueUnit) -> Seq<char> {
    match u {
        ValueUnit::Unitless => "\"none\""@,
        ValueUnit::Nanoseconds => "\"nanoseconds\""@,
        ValueUnit::Microseconds => "\"microseconds\""@,
        ValueUnit::Milliseconds => "\"milliseconds\""@,
        ValueUnit::Seconds => "\"seconds\""@,
        ValueUnit::Bytes => "\"bytes\""@,
    }
}

/// The JSON object for one event: its kind tag, instant and frame index.
pub open spec fn event_json(e: Event) -> Seq<char> {
    match e {
        Event::OpenFrame { at, frame } => "{\"type\":\"O\",\"at\":"@ + dec_chars(at.0 as nat)
            + ",\"frame\":"@ + dec_chars(frame.0 as nat) + "}"@,
        Event::CloseFrame { at, frame } => "{\"type\":\"C\",\"at\":"@ + dec_chars(at.0 as nat)
            + ",\"frame\":"@ + dec_chars(frame.0 as nat) + "}"@,
    }
}

/// One profile's events, comma separated.
pub open spec fn events_json(events: Seq<Event>) -> Seq<char>
    decreases events.len(),
{
    if events.len() == 0 {
        Seq::empty()
    } else if events.len() == 1 {
        event_json(events[0])
    } else {
        events_json(events.drop_last()) + ","@ + event_json(events.last())
    }
}

/// The JSON object for one finished profile.
pub open spec fn profile_json(p: EventedProfile) -> Seq<char> {
    "{\"type\":\"evented\",\"name\":"@ + json_string(p.name@) + ",\"unit\":"@ + unit_json(p.unit)
        + ",\"startValue\":"@ + dec_chars(p.start_value.0 as nat) + ",\"endValue\":"@ + dec_chars(
        p.end_value.0 as nat,
    ) + ",\"events\":["@ + events_json(p.events@) + "]}"@
}

/// The document's profiles, comma separated.
pub open spec fn profiles_json(profiles: Seq<EventedProfile>) -> Seq<char>
    decreases profiles.len(),
{
    if profiles.len() == 0 {
        Seq::empty()
    } else if profiles.len() == 1 {
        profile_json(profiles[0])
    } else {
        profiles_json(profiles.drop_last()) + ","@ + profile_json(profiles.last())
    }
}

/// The whole document: schema URL, shared frame table, profiles, and the
/// optional trailing fields where they are present.
pub open spec fn file_json(f: File) -> Seq<char> {
    "{\"$schema\":\"https://www.speedscope.app/file-format-schema.json\",\"shared\":{\"frames\":["@
        + frames_json(f.shared.frames@) + "]},\"profiles\":["@ + profiles_json(f.profiles@) + "]"@
        + (match f.name {
        Option::Some(name) => ",\"name\":"@ + json_string(name@),
        Option::None => Seq::<char>::empty(),
    }) + (match f.active_profile_index {
        Option::Some(i) => ",\"activeProfileIndex\":"@ + dec_chars(i as nat),
        Option::None => Seq::<char>::empty(),
    }) + (match f.exporter {
        Option::Some(e) => ",\"exporter\":"@ + json_string(e@),
        Option::None => Seq::<char>::empty(),
    }) + "}"@
}

/// Relies on str::chars: the characters of the string, in order.
#[verifier::external_body]
fn str_chars(s: &str) -> (r: Vec<char>)
    ensures
        r@ == s@,
{
    s.chars().collect()
}

/// Relies on the String FromIterator impl over chars: the string whose
/// characters are exactly the given ones, in order.
#[verifier::external_body]
fn chars_to_string(v: Vec<char>) -> (r: String)
    ensures
        r@ == v@,
{
    v.into_iter().collect()
}

fn push_dec_digit(out: &mut Vec<char>, d: u64)
    requires
        d < 10,
    ensures
        final(out)@ == old(out)@.push(dec_digit(d as nat)),
{
    let c: char = if d == 0 {
        '0'
    } else if d == 1 {
        '1'
    } else if d == 2 {
        '2'
    } else if d == 3 {
        '3'
    } else if d == 4 {
        '4'
    } else if d == 5 {
        '5'
    } else if d == 6 {
        '6'
    } else if d == 7 {
        '7'
    } else if d == 8 {
        '8'
    } else {
        '9'
    };
    out.push(c);
}

fn push_hex_digit(out: &mut Vec<char>, d: u32)
    requires
        d < 16,
    ensures
        final(out)@ == old(out)@.push(hex_digit(d as nat)),
{
    if d < 10 {
        push_dec_digit(out, d as u64);
    } else {
        let c: char = if d == 10 {
            'a'
        } else if d == 11 {
            'b'
        } else if d == 12 {
            'c'
        } else if d == 13 {
            'd'
        } else if d == 14 {
            'e'
        } else {
            'f'
        };
        out.push(c);
    }
}

fn push_dec(out: &mut Vec<char>, n: u64)
    ensures
        final(out)@ == old(out)@ + dec_chars(n as nat),
    decreases n,
{
    if n < 10 {
        push_dec_digit(out, n);
        proof {
            assert(old(out)@.push(dec_digit(n as nat)) =~= old(out)@ + dec_chars(n as nat));
        }
    } else {
        push_dec(out, n / 10);
        push_dec_digit(out, n % 10);
        proof {
            assert((old(out)@ + dec_chars((n / 10) as nat)).push(dec_digit((n % 10) as nat)) =~= old(
                out,
            )@ + dec_chars(n as nat));
        }
    }
}

fn push_escape_char(out: &mut Vec<char>, c: char)
    ensures
        final(out)@ == old(out)@ + escape_char(c),
{
    if c == '"' {
        out.push('\\');
        out.push('"');
        proof {
            assert(old(out)@.push('\\').push('"') =~= old(out)@ + escape_char(c));
        }
    } else if c == '\\' {
        out.push('\\');
        out.push('\\');
        proof {
            assert(old(out)@.push('\\').push('\\') =~= old(out)@ + escape_char(c));
        }
    } else if (c as u32) < 32 {
        let v = c as u32;
        out.push('\\');
        out.push('u');
        out.push('0');
        out.push('0');
        push_hex_digit(out, v / 16);
        push_hex_digit(out, v % 16);
        proof {
            assert(old(out)@.push('\\').push('u').push('0').push('0').push(
                hex_digit((v / 16) as nat),
            ).push(hex_digit((v % 16) as nat)) =~= old(out)@ + escape_char(c));
        }
    } else {
        out.push(c);
        proof {
            assert(old(out)@.push(c) =~= old(out)@ + escape_char(c));
        }
    }
}

fn push_json_string(out: &mut Vec<char>, s: &str)
    ensures
        final(out)@ == old(out)@ + json_string(s@),
{
    let ghost base = out@;
    out.push('"');
    let cs = str_chars(s);
    let mut i: usize = 0;
    while i < cs.len()
        invariant
            i <= cs@.len(),
            cs@ == s@,
            out@ == base.push('"') + escaped(s@.take(i as int)),
        decreases cs@.len() - i,
    {
        push_escape_char(out, cs[i]);
        proof {
            assert(s@.take(i + 1).drop_last() =~= s@.take(i as int));
            assert(s@.take(i + 1).last() == s@[i as int]);
        }
        i += 1;
    }
    proof {
        assert(s@.take(cs@.len() as int) =~= s@);
        assert(escaped(Seq::<char>::empty()) =~= Seq::<char>::empty());
    }
    out.push('"');
    proof {
        assert((base.push('"') + escaped(s@)).push('"') =~= base + json_string(s@));
    }
}

fn push_lit(out: &mut Vec<char>, s: &str)
    ensures
        final(out)@ == old(out)@ + s@,
{
    let ghost base = out@;
    let cs = str_chars(s);
    let mut i: usize = 0;
    while i < cs.len()
        invariant
            i <= cs@.len(),
            cs@ == s@,
            out@ == base + s@.take(i as int),
        decreases cs@.len() - i,
    {
        out.push(cs[i]);
        proof {
            assert((base + s@.take(i as int)).push(s@[i as int]) =~= base + s@.take(i + 1));
        }
        i += 1;
    }
    proof {
        assert(s@.take(cs@.len() as int) =~= s@);
    }
}

fn push_frame(out: &mut Vec<char>, f: &Frame)
    ensures
        final(out)@ == old(out)@ + frame_json(*f),
{
    let ghost base = out@;
    push_lit(out, "{\"name\":");
    push_json_string(out, f.name.as_str());
    match &f.file {
        Option::Some(file) => {
            push_lit(out, ",\"file\":");
            push_json_string(out, file.as_str());
        },
        Option::None => {},
    }
    match f.line {
        Option::Some(line) => {
            push_lit(out, ",\"line\":");
            push_dec(out, line as u64);
        },
        Option::None => {},
    }
    match f.col {
        Option::Some(col) => {
            push_lit(out, ",\"col\":");
            push_dec(out, col as u64);
        },
        Option::None => {},
    }
    push_lit(out, "}");
    proof {
        assert(out@ =~= base + frame_json(*f));
    }
}

fn push_event(out: &mut Vec<char>, e: &Event)
    ensures
        final(out)@ == old(out)@ + event_json(*e),
{
    let ghost base = out@;
    match e {
        Event::OpenFrame { at, frame } => {
            push_lit(out, "{\"type\":\"O\",\"at\":");
            push_dec(out, at.0);
            push_lit(out, ",\"frame\":");
            push_dec(out, frame.0 as u64);
            push_lit(out, "}");
        },
        Event::CloseFrame { at, frame } => {
            push_lit(out, "{\"type\":\"C\",\"at\":");
            push_dec(out, at.0);
            push_lit(out, ",\"frame\":");
            push_dec(out, frame.0 as u64);
            push_lit(out, "}");
        },
    }
    proof {
        assert(out@ =~= base + event_json(*e));
    }
}

fn push_profile(out: &mut Vec<char>, p: &EventedProfile)
    ensures
        final(out)@ == old(out)@ + profile_json(*p),
{
    let ghost base = out@;
    push_lit(out, "{\"type\":\"evented\",\"name\":");
    push_json_string(out, p.name.as_str());
    push_lit(out, ",\"unit\":");
    match p.unit {
        ValueUnit::Unitless => push_lit(out, "\"none\""),
        ValueUnit::Nanoseconds => push_lit(out, "\"nanoseconds\""),
        ValueUnit::Microseconds => push_lit(out, "\"microseconds\""),
        ValueUnit::Milliseconds => push_lit(out, "\"milliseconds\""),
        ValueUnit::Seconds => push_lit(out, "\"seconds\""),
        ValueUnit::Bytes => push_lit(out, "\"bytes\""),
    }
    push_lit(out, ",\"startValue\":");
    push_dec(out, p.start_value.0);
    push_lit(out, ",\"endValue\":");
    push_dec(out, p.end_value.0);
    push_lit(out, ",\"events\":[");
    let mut i: usize = 0;
    let ghost mid = out@;
    while i < p.events.len()
        invariant
            i <= p.events@.len(),
            out@ == mid + events_json(p.events@.take(i as int)),
        decreases p.events@.len() - i,
    {
        if i > 0 {
            push_lit(out, ",");
        }
        push_event(out, &p.events[i]);
        proof {
            assert(p.events@.take(i + 1).drop_last() =~= p.events@.take(i as int));
            assert(p.events@.take(i + 1).last() == p.events@[i as int]);
            if i == 0 {
                assert(mid + events_json(p.events@.take(1)) =~= mid + event_json(p.events@[0]));
            }
            assert(out@ =~= mid + events_json(p.events@.take(i + 1)));
        }
        i += 1;
    }
    proof {
        assert(p.events@.take(p.events@.len() as int) =~= p.events@);
    }
    push_lit(out, "]}");
    proof {
        assert(out@ =~= base + profile_json(*p));
    }
}

/// Encodes a finalized document as its JSON text, exactly [`file_json`] of
/// it: pure shaping, no change to the recorded data.
pub fn encode_file(f: &File) -> (r: String)
    ensures
        r@ == file_json(*f),
{
    let mut out: Vec<char> = Vec::new();
    let ghost base = out@;
    push_lit(
        &mut out,
        "{\"$schema\":\"https://www.speedscope.app/file-format-schema.json\",\"shared\":{\"frames\":[",
    );
    let mut i: usize = 0;
    let ghost fbase = out@;
    while i < f.shared.frames.len()
        invariant
            i <= f.shared.frames@.len(),
            out@ == fbase + frames_json(f.shared.frames@.take(i as int)),
        decreases f.shared.frames@.len() - i,
    {
        if i > 0 {
            push_lit(&mut out, ",");
        }
        push_frame(&mut out, &f.shared.frames[i]);
        proof {
            assert(f.shared.frames@.take(i + 1).drop_last() =~= f.shared.frames@.take(i as int));
            assert(f.shared.frames@.take(i + 1).last() == f.shared.frames@[i as int]);
            if i == 0 {
                assert(fbase + frames_json(f.shared.frames@.take(1)) =~= fbase + frame_json(
                    f.shared.frames@[0],
                ));
            }
            assert(out@ =~= fbase + frames_json(f.shared.frames@.take(i + 1)));
        }
        i += 1;
    }
    proof {
        assert(f.shared.frames@.take(f.shared.frames@.len() as int) =~= f.shared.frames@);
    }
    push_lit(&mut out, "]},\"profiles\":[");
    let mut j: usize = 0;
    let ghost pbase = out@;
    while j < f.profiles.len()
        invariant
            j <= f.profiles@.len(),
            out@ == pbase + profiles_json(f.profiles@.take(j as int)),
        decreases f.profiles@.len() - j,
    {
        if j > 0 {
            push_lit(&mut out, ",");
        }
        push_profile(&mut out, &f.profiles[j]);
        proof {
            assert(f.profiles@.take(j + 1).drop_last() =~= f.profiles@.take(j as int));
            assert(f.profiles@.take(j + 1).last() == f.profiles@[j as int]);
            if j == 0 {
                assert(pbase + profiles_json(f.profiles@.take(1)) =~= pbase + profile_json(
                    f.profiles@[0],
                ));
            }
            assert(out@ =~= pbase + profiles_json(f.profiles@.take(j + 1)));
        }
        j += 1;
    }
    proof {
        assert(f.profiles@.take(f.profiles@.len() as int) =~= f.profiles@);
    }
    push_lit(&mut out, "]");
    match &f.name {
        Option::Some(name) => {
            push_lit(&mut out, ",\"name\":");
            push_json_string(&mut out, name.as_str());
        },
        Option::None => {},
    }
    match f.active_profile_index {
        Option::Some(idx) => {
            push_lit(&mut out, ",\"activeProfileIndex\":");
            push_dec(&mut out, idx as u64);
        },
        Option::None => {},
    }
    match &f.exporter {
        Option::Some(e) => {
            push_lit(&mut out, ",\"exporter\":");
            push_json_string(&mut out, e.as_str());
        },
        Option::None => {},
    }
    push_lit(&mut out, "}");
    proof {
        assert(out@ =~= file_json(*f));
    }
    chars_to_string(out)
}

} // verus!
