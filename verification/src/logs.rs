//! Logs: a ring buffer of recent log lines, for the web UI's Logs tab.

use std::collections::VecDeque;

use vstd::prelude::*;
use vstd::string::*;

use crate::text;

verus! {

/// How many lines are kept.
pub const CAPACITY: usize = 500;

/// The recent log lines, oldest first.
pub struct BufferLayer {
    buf: VecDeque<String>,
}

impl View for BufferLayer {
    type V = Seq<Seq<char>>;

    closed spec fn view(&self) -> Seq<Seq<char>> {
        text::texts(self.buf@)
    }
}

/// The lines after one more: at capacity the oldest goes.
pub open spec fn with_line(lines: Seq<Seq<char>>, line: Seq<char>) -> Seq<Seq<char>> {
    if lines.len() >= CAPACITY {
        lines.drop_first().push(line)
    } else {
        lines.push(line)
    }
}

/// An empty buffer.
pub fn init() -> (r: BufferLayer)
    ensures
        r@ == Seq::<Seq<char>>::empty(),
{
    let r = BufferLayer { buf: VecDeque::with_capacity(CAPACITY) };
    assert(r@ =~= Seq::<Seq<char>>::empty());
    r
}

/// The buffered log lines, oldest first.
pub fn snapshot(layer: &BufferLayer) -> (r: Vec<String>)
    ensures
        text::texts(r@) == layer@,
{
    let mut out: Vec<String> = Vec::new();
    let mut i: usize = 0;
    while i < layer.buf.len()
        invariant
            i <= layer.buf@.len(),
            out@.len() == i,
            forall|k: int| 0 <= k < i ==> (#[trigger] out@[k])@ == layer.buf@[k]@,
        decreases layer.buf@.len() - i,
    {
        out.push(layer.buf[i].clone());
        i += 1;
    }
    assert(text::texts(out@) =~= layer@);
    out
}

// ---------------------------------------------------------------------------
// Lines
// ---------------------------------------------------------------------------

/// The message of an event, and its other fields.
pub struct LineVisitor {
    pub message: String,
    pub fields: String,
}

impl Default for LineVisitor {
    fn default() -> (r: Self)
        ensures
            r.message@ == Seq::<char>::empty(),
            r.fields@ == Seq::<char>::empty(),
    {
        LineVisitor { message: String::new(), fields: String::new() }
    }
}

/// The field `message` is the message; any other is listed with its value.
pub open spec fn recorded(
    message: Seq<char>,
    fields: Seq<char>,
    name: Seq<char>,
    value: Seq<char>,
) -> (Seq<char>, Seq<char>) {
    if name == "message"@ {
        (value, fields)
    } else {
        (message, fields + " "@ + name + "="@ + value)
    }
}

impl LineVisitor {
    /// Record a field whose value is a text.
    pub fn record_str(&mut self, field: &str, value: &str)
        ensures
            (final(self).message@, final(self).fields@) == recorded(
                old(self).message@,
                old(self).fields@,
                field@,
                value@,
            ),
    {
        if text::same(field, "message") {
            self.message = value.to_string();
        } else {
            self.fields.append(" ");
            self.fields.append(field);
            self.fields.append("=");
            self.fields.append(value);
        }
    }

    /// Record a field by the text that shows its value.
    pub fn record_debug(&mut self, field: &str, shown: &str)
        ensures
            (final(self).message@, final(self).fields@) == recorded(
                old(self).message@,
                old(self).fields@,
                field@,
                shown@,
            ),
    {
        self.record_str(field, shown);
    }
}

/// `s` behind as many spaces as make it `width` characters wide.
pub open spec fn right_aligned(s: Seq<char>, width: nat) -> Seq<char> {
    if s.len() >= width {
        s
    } else {
        Seq::new((width - s.len()) as nat, |i: int| ' ') + s
    }
}

fn align_right(s: &str, width: usize) -> (r: String)
    ensures
        r@ == right_aligned(s@, width as nat),
{
    let cs = text::chars_of(s);
    let mut r = String::new();
    let mut n: usize = cs.len();
    while n < width
        invariant
            cs@ == s@,
            cs@.len() <= n,
            n <= width || n == cs@.len(),
            r@ == Seq::new((n - cs@.len()) as nat, |i: int| ' '),
        decreases width - n,
    {
        r.push(' ');
        n += 1;
        assert(r@ =~= Seq::new((n - cs@.len()) as nat, |i: int| ' '));
    }
    r.append(s);
    assert(r@ =~= right_aligned(s@, width as nat));
    r
}

/// A log line: the time, the level in five columns, the message, the fields.
pub open spec fn log_line(
    time: Seq<char>,
    level: Seq<char>,
    message: Seq<char>,
    fields: Seq<char>,
) -> Seq<char> {
    time + " "@ + right_aligned(level, 5) + " "@ + message + fields
}

impl BufferLayer {
    /// Append an event.
    pub fn on_event(&mut self, time: &str, level: &str, event: &LineVisitor)
        ensures
            final(self)@ == with_line(
                old(self)@,
                log_line(time@, level@, event.message@, event.fields@),
            ),
    {
        let mut line = time.to_string();
        line.append(" ");
        line.append(align_right(level, 5).as_str());
        line.append(" ");
        line.append(event.message.as_str());
        line.append(event.fields.as_str());
        let ghost before = self.buf@;
        if self.buf.len() >= CAPACITY {
            self.buf.pop_front();
            assert(self.buf@ =~= before.drop_first());
        }
        let ghost l = line;
        let ghost cut = self.buf@;
        self.buf.push_back(line);
        assert(self.buf@ =~= cut.push(l));
        assert(self@ =~= with_line(old(self)@, l@));
    }
}

// ---------------------------------------------------------------------------
// Laws
// ---------------------------------------------------------------------------

/// The buffer after all of these lines, from an empty one.
pub open spec fn after_lines(all: Seq<Seq<char>>) -> Seq<Seq<char>>
    decreases all.len(),
{
    if all.len() == 0 {
        Seq::empty()
    } else {
        with_line(after_lines(all.drop_last()), all.last())
    }
}

/// The buffer holds the most recent lines, in order: all of them until it is
/// full, and then as many as it keeps.
pub proof fn the_buffer_holds_the_latest_lines(all: Seq<Seq<char>>)
    ensures
        all.len() <= CAPACITY ==> after_lines(all) == all,
        all.len() > CAPACITY ==> after_lines(all) == all.skip(all.len() - CAPACITY),
    decreases all.len(),
{
    if all.len() > 0 {
        let front = all.drop_last();
        the_buffer_holds_the_latest_lines(front);
        if all.len() <= CAPACITY {
            assert(after_lines(all) =~= all);
        } else {
            assert(after_lines(all) =~= all.skip(all.len() - CAPACITY));
        }
    } else {
        assert(after_lines(all) =~= all);
    }
}

/// A log line begins with the time and a space; the level stands at the right of five
/// columns; the message and the fields follow a space.
pub proof fn the_columns_of_a_log_line(
    time: Seq<char>,
    level: Seq<char>,
    message: Seq<char>,
    fields: Seq<char>,
    pad: Seq<char>,
)
    requires
        pad.len() + level.len() == 5 || (pad.len() == 0 && level.len() > 5),
        forall|i: int| 0 <= i < pad.len() ==> pad[i] == ' ',
    ensures
        log_line(time, level, message, fields) == time + " "@ + (pad + level) + " "@ + message
            + fields,
{
    assert(right_aligned(level, 5) =~= pad + level);
}

/// The field `message` becomes the message and any other field is listed behind those
/// before it; neither touches the other.
pub proof fn a_field_is_message_or_listed(
    message: Seq<char>,
    fields: Seq<char>,
    name: Seq<char>,
    value: Seq<char>,
)
    ensures
        name == "message"@ ==> recorded(message, fields, name, value) == (value, fields),
        name != "message"@ ==> recorded(message, fields, name, value) == (
            message,
            fields + " "@ + name + "="@ + value,
        ),
{
}

/// One more line is the last one; the others stay in their order, but for the oldest
/// where there were five hundred already.
pub proof fn a_line_goes_to_the_end(lines: Seq<Seq<char>>, line: Seq<char>)
    ensures
        with_line(lines, line).last() == line,
        with_line(lines, line).drop_last() == if lines.len() < 500 {
            lines
        } else {
            lines.skip(1)
        },
{
    assert(with_line(lines, line).drop_last() =~= if lines.len() < 500 {
        lines
    } else {
        lines.skip(1)
    });
}

} // verus!
