use vstd::prelude::*;
use crate::text_writer::{int_text, push_all, push_int};
use crate::widget::{Binding, Event};
use vstd::utf8::encode_utf8;

verus! {

// ---------------------------------------------------------------------------
// Event batches, as sent back to the controller: `(`, then one line
// `\n (<binding> <event>)` per event, then `)` and a newline.

/// How Rust's `Debug` writes a character: between single quotes, escaped.
pub uninterp spec fn char_debug(c: char) -> Seq<char>;

/// Relies on `char`'s `Debug` formatting: the quoted, escaped character,
/// which depends on the character alone.
#[verifier::external_body]
fn quoted_char(c: char) -> (r: String)
    ensures
        r@ == char_debug(c),
{
    format!("{:?}", c)
}

/// The name of an event kind with its fields; `quoted` is the written form
/// of the character of a `Text` event.
pub open spec fn event_text(e: Event, quoted: Seq<u8>) -> Seq<u8> {
    match e {
        Event::Down => seq![68u8, 111u8, 119u8, 110u8],
        Event::Up => seq![85u8, 112u8],
        Event::Motion(x, y) => seq![77u8, 111u8, 116u8, 105u8, 111u8, 110u8, 40u8] + int_text(
            x as int,
        ) + seq![44u8, 32u8] + int_text(y as int) + seq![41u8],
        Event::Key(k) => seq![75u8, 101u8, 121u8, 40u8] + int_text(k as int) + seq![41u8],
        Event::Text(_) => seq![84u8, 101u8, 120u8, 116u8, 40u8] + quoted + seq![41u8],
        Event::KeyboardFocusLost => seq![
            75u8, 101u8, 121u8, 98u8, 111u8, 97u8, 114u8, 100u8, 70u8, 111u8, 99u8, 117u8, 115u8,
            76u8, 111u8, 115u8, 116u8,
        ],
    }
}

/// One line of a batch: `\n (<binding> <event>)`.
pub open spec fn event_line(b: Binding, e: Event, quoted: Seq<u8>) -> Seq<u8> {
    seq![10u8, 32u8, 40u8] + int_text(b as int) + seq![32u8] + event_text(e, quoted) + seq![41u8]
}

pub open spec fn quoted_of(e: Event) -> Seq<u8> {
    match e {
        Event::Text(c) => encode_utf8(char_debug(c)),
        _ => seq![],
    }
}

pub open spec fn event_lines(es: Seq<(Binding, Event)>) -> Seq<u8>
    decreases es.len(),
{
    if es.len() == 0 {
        seq![]
    } else {
        event_lines(es.drop_last()) + event_line(es.last().0, es.last().1, quoted_of(es.last().1))
    }
}

pub open spec fn events_text(es: Seq<(Binding, Event)>) -> Seq<u8> {
    seq![40u8] + event_lines(es) + seq![41u8, 10u8]
}

/// Appends the line of one event, with `quoted` as the written form of the
/// character of a `Text` event.
pub fn push_event_line(out: &mut Vec<u8>, binding: Binding, event: Event, quoted: &[u8])
    ensures
        final(out)@ == old(out)@ + event_line(binding, event, quoted@),
{
    let ghost start = out@;
    out.push(10);
    out.push(32);
    out.push(40);
    push_int(out, binding);
    out.push(32);
    match event {
        Event::Down => {
            let w = vec![68u8, 111u8, 119u8, 110u8];
            push_all(out, w.as_slice());
        },
        Event::Up => {
            let w = vec![85u8, 112u8];
            push_all(out, w.as_slice());
        },
        Event::Motion(x, y) => {
            let w = vec![77u8, 111u8, 116u8, 105u8, 111u8, 110u8, 40u8];
            push_all(out, w.as_slice());
            push_int(out, x);
            out.push(44);
            out.push(32);
            push_int(out, y);
            out.push(41);
        },
        Event::Key(k) => {
            let w = vec![75u8, 101u8, 121u8, 40u8];
            push_all(out, w.as_slice());
            push_int(out, k);
            out.push(41);
        },
        Event::Text(_) => {
            let w = vec![84u8, 101u8, 120u8, 116u8, 40u8];
            push_all(out, w.as_slice());
            push_all(out, quoted);
            out.push(41);
        },
        Event::KeyboardFocusLost => {
            let w = vec![
                75u8, 101u8, 121u8, 98u8, 111u8, 97u8, 114u8, 100u8, 70u8, 111u8, 99u8, 117u8,
                115u8, 76u8, 111u8, 115u8, 116u8,
            ];
            push_all(out, w.as_slice());
        },
    }
    out.push(41);
    assert(out@ =~= start + event_line(binding, event, quoted@));
}

/// The text of a batch of events.
pub fn encode_events(events: &Vec<(Binding, Event)>) -> (r: Vec<u8>)
    ensures
        r@ == events_text(events@),
{
    let mut out: Vec<u8> = Vec::new();
    out.push(40);
    let mut i: usize = 0;
    while i < events.len()
        invariant
            i <= events@.len(),
            out@ == seq![40u8] + event_lines(events@.take(i as int)),
        decreases events@.len() - i,
    {
        let (binding, event) = events[i];
        let quoted = match event {
            Event::Text(c) => quoted_char(c),
            _ => String::new(),
        };
        push_event_line(&mut out, binding, event, quoted.as_str().as_bytes());
        assert(events@.take(i + 1).drop_last() =~= events@.take(i as int));
        i = i + 1;
    }
    assert(events@.take(i as int) =~= events@);
    out.push(41);
    out.push(10);
    out
}

} // verus!
