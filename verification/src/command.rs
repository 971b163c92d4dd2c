//! The text commands that the web interface sends over its websocket.
//!
//! A command is a tag and its fields, separated by `:`. The tag `V` sets the
//! target output voltage and `I` the target output current, each to the
//! number in the field after the tag; `M` switches maximum power point
//! tracking on when the field after it is the number 1, and off for any
//! other number. The tags `F` and `D`, and any other text, change nothing.
//! Fields after the first value field are ignored.

use vstd::prelude::*;
use vstd::slice::slice_subrange;
use vstd::string::StringSliceAdditionalSpecFns;
use vstd::slice::slice_to_vec;
use crate::decimal::decimal_usize;
use crate::decimal::parse_usize;

verus! {

/// The byte of the character `:`, which separates a command's fields.
pub const FIELD_SEPARATOR: u8 = 0x3a;

/// The byte of the tag `V` (set the target voltage).
pub const TAG_VOLTAGE: u8 = 0x56;

/// The byte of the tag `I` (set the target current).
pub const TAG_CURRENT: u8 = 0x49;

/// The byte of the tag `M` (switch maximum power point tracking).
pub const TAG_MPPT: u8 = 0x4d;

/// A command of the web interface, as parsed from its text.
///
/// The voltage and current targets are carried as the bytes of their
/// numeral: reading a number with a fractional part is left to the caller.
#[derive(Debug, PartialEq, Eq)]
pub enum Command {
    /// Set the target output voltage to the number written in these bytes.
    SetVoltage(Vec<u8>),
    /// Set the target output current to the number written in these bytes.
    SetCurrent(Vec<u8>),
    /// Switch maximum power point tracking on (`true`) or off.
    SetMppt(bool),
    /// A command that changes nothing.
    Ignored,
}

/// Why a command's text was refused.
#[derive(Debug, Clone, Copy, PartialEq, Eq, Structural)]
pub enum CommandError {
    /// The tag needs a value field and the text has none.
    MissingValue,
    /// The value field of `M` is not a decimal numeral that fits a `usize`.
    InvalidNumber,
}

/// The mathematical content of a [`Command`].
pub enum CommandView {
    SetVoltage(Seq<u8>),
    SetCurrent(Seq<u8>),
    SetMppt(bool),
    Ignored,
}

impl View for Command {
    type V = CommandView;

    open spec fn view(&self) -> CommandView {
        match self {
            Command::SetVoltage(v) => CommandView::SetVoltage(v@),
            Command::SetCurrent(v) => CommandView::SetCurrent(v@),
            Command::SetMppt(on) => CommandView::SetMppt(*on),
            Command::Ignored => CommandView::Ignored,
        }
    }
}

/// The index of the first separator in `s` at or after `from`, or the
/// length of `s` where there is none.
pub open spec fn field_end(s: Seq<u8>, from: int) -> int
    decreases s.len() - from,
{
    if from >= s.len() {
        s.len() as int
    } else if s[from] == FIELD_SEPARATOR {
        from
    } else {
        field_end(s, from + 1)
    }
}

/// The first field of `s`: its tag.
pub open spec fn tag_field(s: Seq<u8>) -> Seq<u8> {
    s.subrange(0, field_end(s, 0))
}

/// The second field of `s`, where `s` holds a separator.
pub open spec fn value_field(s: Seq<u8>) -> Option<Seq<u8>> {
    let e: int = field_end(s, 0);
    if e < s.len() {
        Some(s.subrange(e + 1, field_end(s, e + 1)))
    } else {
        None
    }
}

/// What the command text `s` means.
pub open spec fn command_meaning(s: Seq<u8>) -> Result<CommandView, CommandError> {
    let tag = tag_field(s);
    if tag == seq![TAG_VOLTAGE] {
        match value_field(s) {
            Some(v) => Ok(CommandView::SetVoltage(v)),
            None => Err(CommandError::MissingValue),
        }
    } else if tag == seq![TAG_CURRENT] {
        match value_field(s) {
            Some(v) => Ok(CommandView::SetCurrent(v)),
            None => Err(CommandError::MissingValue),
        }
    } else if tag == seq![TAG_MPPT] {
        match value_field(s) {
            Some(v) => match decimal_usize(v) {
                Some(n) => Ok(CommandView::SetMppt(n == 1)),
                None => Err(CommandError::InvalidNumber),
            },
            None => Err(CommandError::MissingValue),
        }
    } else {
        Ok(CommandView::Ignored)
    }
}

/// Appending bytes behind `s` leaves a field end that lies inside `s`
/// where it was, and moves one that lay at the end of `s` to the first
/// separator of the appended bytes.
proof fn lemma_field_end_append(s: Seq<u8>, t: Seq<u8>, from: int)
    requires
        0 <= from <= s.len(),
    ensures
        from <= field_end(s, from) <= s.len(),
        field_end(s, from) < s.len() ==> field_end(s + t, from) == field_end(s, from),
        field_end(s, from) == s.len() ==> field_end(s + t, from) == s.len() + field_end(t, 0),
    decreases s.len() - from,
{
    if from < s.len() {
        assert((s + t)[from] == s[from]);
        if s[from] != FIELD_SEPARATOR {
            lemma_field_end_append(s, t, from + 1);
        }
    } else {
        lemma_field_end_shift(s, t, 0);
    }
}

/// Searching `s + t` from inside `t` is searching `t`, shifted by the
/// length of `s`.
proof fn lemma_field_end_shift(s: Seq<u8>, t: Seq<u8>, from: int)
    requires
        0 <= from <= t.len(),
    ensures
        field_end(s + t, s.len() + from) == s.len() + field_end(t, from),
    decreases t.len() - from,
{
    if from < t.len() {
        assert((s + t)[s.len() + from] == t[from]);
        if t[from] != FIELD_SEPARATOR {
            lemma_field_end_shift(s, t, from + 1);
        }
    }
}

/// Fields after the value field do not change what a command means: where
/// the text `s` holds exactly one separator, appending a separator and
/// any further bytes `rest` yields the same command.
pub proof fn lemma_extra_fields_ignored(s: Seq<u8>, rest: Seq<u8>)
    requires
        field_end(s, 0) < s.len(),
        field_end(s, field_end(s, 0) + 1) == s.len(),
    ensures
        command_meaning(s + seq![FIELD_SEPARATOR] + rest) == command_meaning(s),
{
    let t = seq![FIELD_SEPARATOR] + rest;
    assert(s + seq![FIELD_SEPARATOR] + rest =~= s + t);
    let e: int = field_end(s, 0);
    lemma_field_end_append(s, t, 0);
    lemma_field_end_append(s, t, e + 1);
    assert(t[0] == FIELD_SEPARATOR);
    assert(field_end(t, 0) == 0);
    assert(tag_field(s + t) =~= tag_field(s));
    assert(value_field(s + t) == value_field(s)) by {
        assert((s + t).subrange(e + 1, s.len() as int) =~= s.subrange(e + 1, s.len() as int));
    }
}

/// A field end searched from a point after which no separator follows is
/// the end of the text.
proof fn lemma_field_end_no_separator(s: Seq<u8>, from: int)
    requires
        0 <= from <= s.len(),
        forall|i: int| from <= i < s.len() ==> s[i] != FIELD_SEPARATOR,
    ensures
        field_end(s, from) == s.len(),
    decreases s.len() - from,
{
    if from < s.len() {
        lemma_field_end_no_separator(s, from + 1);
    }
}

/// The text `tag:value` for a one-byte tag and a value free of separators
/// has that tag and that value, byte for byte.
proof fn lemma_tag_and_value(tag: u8, value: Seq<u8>)
    requires
        tag != FIELD_SEPARATOR,
        forall|i: int| 0 <= i < value.len() ==> value[i] != FIELD_SEPARATOR,
    ensures
        tag_field(seq![tag, FIELD_SEPARATOR] + value) == seq![tag],
        value_field(seq![tag, FIELD_SEPARATOR] + value) == Some(value),
        field_end(seq![tag, FIELD_SEPARATOR] + value, 0) == 1,
        field_end(seq![tag, FIELD_SEPARATOR] + value, 2) == value.len() + 2,
{
    let s = seq![tag, FIELD_SEPARATOR] + value;
    assert(s[0] == tag);
    assert(s[1] == FIELD_SEPARATOR);
    assert(field_end(s, 1) == 1);
    assert(field_end(s, 0) == 1);
    assert forall|i: int| 2 <= i < s.len() implies s[i] != FIELD_SEPARATOR by {
        assert(s[i] == value[i - 2]);
    }
    lemma_field_end_no_separator(s, 2);
    assert(tag_field(s) =~= seq![tag]);
    assert(s.subrange(2, s.len() as int) =~= value);
}

/// The voltage command carries its value verbatim: for every value `n`
/// free of separators, `V:n` sets the target voltage to exactly the bytes
/// of `n`, and so does `V:n:rest` for any further bytes `rest`; `V` alone
/// is refused for want of a value.
pub proof fn lemma_voltage_value_verbatim(n: Seq<u8>, rest: Seq<u8>)
    requires
        forall|i: int| 0 <= i < n.len() ==> n[i] != FIELD_SEPARATOR,
    ensures
        command_meaning(seq![TAG_VOLTAGE, FIELD_SEPARATOR] + n) == Ok::<
            CommandView,
            CommandError,
        >(CommandView::SetVoltage(n)),
        command_meaning(seq![TAG_VOLTAGE, FIELD_SEPARATOR] + n + seq![FIELD_SEPARATOR] + rest)
            == Ok::<CommandView, CommandError>(CommandView::SetVoltage(n)),
        command_meaning(seq![TAG_VOLTAGE]) == Err::<CommandView, CommandError>(
            CommandError::MissingValue,
        ),
{
    lemma_tag_and_value(TAG_VOLTAGE, n);
    lemma_extra_fields_ignored(seq![TAG_VOLTAGE, FIELD_SEPARATOR] + n, rest);
    lemma_lone_tag(TAG_VOLTAGE);
}

/// The current command carries its value verbatim: for every value `n`
/// free of separators, `I:n` sets the target current to exactly the bytes
/// of `n`, and so does `I:n:rest` for any further bytes `rest`; `I` alone
/// is refused for want of a value.
pub proof fn lemma_current_value_verbatim(n: Seq<u8>, rest: Seq<u8>)
    requires
        forall|i: int| 0 <= i < n.len() ==> n[i] != FIELD_SEPARATOR,
    ensures
        command_meaning(seq![TAG_CURRENT, FIELD_SEPARATOR] + n) == Ok::<
            CommandView,
            CommandError,
        >(CommandView::SetCurrent(n)),
        command_meaning(seq![TAG_CURRENT, FIELD_SEPARATOR] + n + seq![FIELD_SEPARATOR] + rest)
            == Ok::<CommandView, CommandError>(CommandView::SetCurrent(n)),
        command_meaning(seq![TAG_CURRENT]) == Err::<CommandView, CommandError>(
            CommandError::MissingValue,
        ),
{
    lemma_tag_and_value(TAG_CURRENT, n);
    lemma_extra_fields_ignored(seq![TAG_CURRENT, FIELD_SEPARATOR] + n, rest);
    lemma_lone_tag(TAG_CURRENT);
}

/// The tracking command reads its value as a decimal numeral: for every
/// value `n` free of separators, `M:n` switches tracking on exactly when `n`
/// denotes 1, off when it denotes another number, and is refused where `n`
/// denotes no `usize`; further fields change nothing, and `M` alone is
/// refused for want of a value.
pub proof fn lemma_mppt_value(n: Seq<u8>, rest: Seq<u8>)
    requires
        forall|i: int| 0 <= i < n.len() ==> n[i] != FIELD_SEPARATOR,
    ensures
        command_meaning(seq![TAG_MPPT, FIELD_SEPARATOR] + n) == match decimal_usize(n) {
            Some(k) => Ok::<CommandView, CommandError>(CommandView::SetMppt(k == 1)),
            None => Err::<CommandView, CommandError>(CommandError::InvalidNumber),
        },
        command_meaning(seq![TAG_MPPT, FIELD_SEPARATOR] + n + seq![FIELD_SEPARATOR] + rest)
            == command_meaning(seq![TAG_MPPT, FIELD_SEPARATOR] + n),
        command_meaning(seq![TAG_MPPT]) == Err::<CommandView, CommandError>(
            CommandError::MissingValue,
        ),
{
    lemma_tag_and_value(TAG_MPPT, n);
    lemma_extra_fields_ignored(seq![TAG_MPPT, FIELD_SEPARATOR] + n, rest);
    lemma_lone_tag(TAG_MPPT);
}

/// A tag with no separator after it has no value field.
proof fn lemma_lone_tag(tag: u8)
    requires
        tag != FIELD_SEPARATOR,
    ensures
        tag_field(seq![tag]) == seq![tag],
        value_field(seq![tag]) == None::<Seq<u8>>,
{
    let s = seq![tag];
    assert(field_end(s, 1) == 1);
    assert(field_end(s, 0) == 1);
    assert(tag_field(s) =~= seq![tag]);
}

/// Finds the end of the field of `bytes` that starts at `from`.
fn find_field_end(bytes: &[u8], from: usize) -> (end: usize)
    requires
        from <= bytes@.len(),
    ensures
        end == field_end(bytes@, from as int),
        from <= end <= bytes@.len(),
{
    let mut i: usize = from;
    while i < bytes.len()
        invariant
            from <= i <= bytes@.len(),
            field_end(bytes@, from as int) == field_end(bytes@, i as int),
        decreases bytes@.len() - i,
    {
        if bytes[i] == FIELD_SEPARATOR {
            return i;
        }
        i = i + 1;
    }
    i
}

/// The tag of `s` is the one byte `x` exactly where the tag field has
/// length one and its byte is `x`.
proof fn lemma_single_tag(s: Seq<u8>, tag_end: int, tag: u8, x: u8)
    requires
        tag_end == field_end(s, 0),
        0 <= tag_end <= s.len(),
        tag_end == 1 ==> tag == s[0],
        tag_end != 1 ==> tag == 0,
        x != 0,
    ensures
        (tag_field(s) == seq![x]) <==> (tag_end == 1 && tag == x),
{
    let t = tag_field(s);
    assert(t.len() == tag_end);
    if tag_end == 1 && tag == x {
        assert(t =~= seq![x]);
    }
    if t == seq![x] {
        assert(seq![x].len() == 1);
        assert(t[0] == s[0]);
        assert(seq![x][0] == x);
    }
}

/// Parses the text of a command of the web interface.
pub fn parse_command(message: &str) -> (result: Result<Command, CommandError>)
    ensures
        match result {
            Ok(c) => command_meaning(message.spec_bytes()) == Ok::<CommandView, CommandError>(c@),
            Err(e) => command_meaning(message.spec_bytes()) == Err::<CommandView, CommandError>(e),
        },
{
    let bytes = message.as_bytes();
    let ghost s = bytes@;
    let tag_end: usize = find_field_end(bytes, 0);
    let tag: u8 = if tag_end == 1 {
        bytes[0]
    } else {
        0u8
    };
    proof {
        lemma_single_tag(s, tag_end as int, tag, TAG_VOLTAGE);
        lemma_single_tag(s, tag_end as int, tag, TAG_CURRENT);
        lemma_single_tag(s, tag_end as int, tag, TAG_MPPT);
    }
    if tag != TAG_VOLTAGE && tag != TAG_CURRENT && tag != TAG_MPPT {
        return Ok(Command::Ignored);
    }
    if tag_end == bytes.len() {
        return Err(CommandError::MissingValue);
    }
    let value_end: usize = find_field_end(bytes, tag_end + 1);
    let value = slice_subrange(bytes, tag_end + 1, value_end);
    assert(value_field(s) == Some(value@));
    if tag == TAG_MPPT {
        match parse_usize(value) {
            Some(n) => Ok(Command::SetMppt(n == 1)),
            None => Err(CommandError::InvalidNumber),
        }
    } else if tag == TAG_VOLTAGE {
        Ok(Command::SetVoltage(slice_to_vec(value)))
    } else {
        Ok(Command::SetCurrent(slice_to_vec(value)))
    }
}

} // verus!
