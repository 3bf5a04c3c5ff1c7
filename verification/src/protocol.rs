//! The text commands that clients send.
//!
//! A command is one line of ASCII: a name and its fields, separated by single
//! spaces. Every space separates, so two spaces in a row enclose an empty
//! token. A field is an integer in decimal: one or more digits, for a
//! coordinate with an optional minus sign in front.
//!
//! | command | fields |
//! |---|---|
//! | `SetInterest` | `x y z radius` |
//! | `SetPosition` | `x y z` |
//! | `SetRotation` | `x y z` |
//!
//! Coordinates are in the range of `i32`, the radius in that of `u16`.

use vstd::prelude::*;
use crate::geometry::{Position, Rotation};

verus! {

/// The byte that separates tokens.
pub const SPACE: u8 = 32;

/// The byte that makes a coordinate negative.
pub const MINUS: u8 = 45;

/// The tokens of a line: a space ends one token and begins the next, and
/// every other byte extends the token that is being read. A line without
/// spaces is one token; the empty line is one empty token.
pub open spec fn tokens(line: Seq<u8>) -> Seq<Seq<u8>>
    decreases line.len(),
{
    if line.len() == 0 {
        seq![Seq::empty()]
    } else {
        let before = tokens(line.drop_last());
        if line.last() == SPACE {
            before.push(Seq::empty())
        } else {
            before.drop_last().push(before.last().push(line.last()))
        }
    }
}

/// The tokens of `line` are the stretches of it that `spans` marks, in order.
pub open spec fn spans_mark(line: Seq<u8>, spans: Seq<(usize, usize)>) -> bool {
    &&& spans.len() == tokens(line).len()
    &&& forall|k: int|
        0 <= k < spans.len() ==> {
            &&& (#[trigger] spans[k]).0 <= spans[k].1 <= line.len()
            &&& line.subrange(spans[k].0 as int, spans[k].1 as int) == tokens(line)[k]
        }
}

/// Whether a token is free of spaces.
pub open spec fn spaceless(token: Seq<u8>) -> bool {
    forall|i: int| 0 <= i < token.len() ==> token[i] != SPACE
}

/// Tokens written one after another with a single space between neighbours.
pub open spec fn joined(fields: Seq<Seq<u8>>) -> Seq<u8>
    decreases fields.len(),
{
    if fields.len() == 0 {
        Seq::empty()
    } else if fields.len() == 1 {
        fields[0]
    } else {
        joined(fields.drop_last()) + seq![SPACE] + fields.last()
    }
}

/// No token of a line holds a space, and the tokens joined by spaces are the
/// line again.
pub proof fn lemma_tokens_join(line: Seq<u8>)
    ensures
        tokens(line).len() >= 1,
        forall|k: int| 0 <= k < tokens(line).len() ==> spaceless(#[trigger] tokens(line)[k]),
        joined(tokens(line)) == line,
    decreases line.len(),
{
    if line.len() == 0 {
        assert(joined(tokens(line)) =~= line);
    } else {
        let rest = line.drop_last();
        let before = tokens(rest);
        lemma_tokens_join(rest);
        if line.last() == SPACE {
            let now = before.push(Seq::<u8>::empty());
            assert(now.drop_last() =~= before);
            assert(joined(now) =~= rest + seq![SPACE]);
            assert(rest + seq![SPACE] =~= line);
        } else {
            let grown = before.last().push(line.last());
            let now = before.drop_last().push(grown);
            assert(now.drop_last() =~= before.drop_last());
            assert(spaceless(before[before.len() - 1]));
            assert(spaceless(grown));
            if before.len() == 1 {
                assert(joined(before) == before[0]);
                assert(joined(now) =~= rest.push(line.last()));
            } else {
                assert(joined(now) =~= (joined(before.drop_last()) + seq![SPACE] + before.last()).push(
                    line.last(),
                ));
            }
            assert(rest.push(line.last()) =~= line);
        }
    }
}

/// The tokens of a line are the only way to write it as tokens without
/// spaces joined by spaces: whatever is joined comes apart as it was.
pub proof fn lemma_tokens_unique(fields: Seq<Seq<u8>>)
    requires
        fields.len() >= 1,
        forall|k: int| 0 <= k < fields.len() ==> spaceless(#[trigger] fields[k]),
    ensures
        tokens(joined(fields)) == fields,
    decreases joined(fields).len(),
{
    let line = joined(fields);
    let last = fields.last();
    assert(spaceless(fields[fields.len() - 1]));
    if last.len() == 0 {
        if fields.len() == 1 {
            assert(last =~= Seq::<u8>::empty());
            assert(line.len() == 0);
            assert(fields =~= seq![Seq::<u8>::empty()]);
        } else {
            let front = fields.drop_last();
            assert(line =~= joined(front).push(SPACE));
            assert(line.drop_last() =~= joined(front));
            assert forall|k: int| 0 <= k < front.len() implies spaceless(#[trigger] front[k]) by {
                assert(front[k] == fields[k]);
            }
            lemma_tokens_unique(front);
            assert(line.last() == SPACE);
            assert(last =~= Seq::<u8>::empty());
            assert(front.push(Seq::<u8>::empty()) =~= fields);
        }
    } else {
        let c = last.last();
        assert(c == last[last.len() - 1]);
        let shorter = fields.drop_last().push(last.drop_last());
        assert(shorter.drop_last() =~= fields.drop_last());
        assert forall|k: int| 0 <= k < shorter.len() implies spaceless(#[trigger] shorter[k]) by {
            if k < shorter.len() - 1 {
                assert(shorter[k] == fields[k]);
            } else {
                assert forall|i: int| 0 <= i < shorter[k].len() implies shorter[k][i] != SPACE by {
                    assert(shorter[k][i] == last[i]);
                }
            }
        }
        if fields.len() == 1 {
            assert(joined(shorter) =~= line.drop_last());
        } else {
            assert(joined(shorter) =~= joined(fields.drop_last()) + seq![SPACE] + last.drop_last());
            assert(line =~= (joined(fields.drop_last()) + seq![SPACE] + last.drop_last()).push(c));
            assert(joined(shorter) =~= line.drop_last());
        }
        assert(line.last() == c);
        lemma_tokens_unique(shorter);
        assert(last.drop_last().push(c) =~= last);
        assert(shorter.drop_last().push(shorter.last().push(c)) =~= fields);
    }
}

/// Splits a line into its tokens, each given by where it begins and where
/// it ends in the line.
pub fn split(line: &[u8]) -> (spans: Vec<(usize, usize)>)
    ensures
        spans_mark(line@, spans@),
        spans@.len() >= 1,
{
    let mut spans: Vec<(usize, usize)> = Vec::new();
    let mut start: usize = 0;
    let mut i: usize = 0;
    assert(line@.take(0) =~= Seq::<u8>::empty());
    assert(line@.subrange(0, 0) =~= Seq::<u8>::empty());
    while i < line.len()
        invariant
            start <= i <= line.len(),
            tokens(line@.take(i as int)).len() == spans.len() + 1,
            tokens(line@.take(i as int)).last() == line@.subrange(start as int, i as int),
            forall|k: int|
                0 <= k < spans.len() ==> {
                    &&& (#[trigger] spans[k]).0 <= spans[k].1 <= line.len()
                    &&& line@.subrange(spans[k].0 as int, spans[k].1 as int) == tokens(
                        line@.take(i as int),
                    )[k]
                },
        decreases line.len() - i,
    {
        let ghost before = tokens(line@.take(i as int));
        assert(line@.take(i + 1).drop_last() =~= line@.take(i as int));
        if line[i] == SPACE {
            spans.push((start, i));
            start = i + 1;
            assert(line@.subrange(start as int, i + 1) =~= Seq::<u8>::empty());
        } else {
            assert(line@.subrange(start as int, i + 1) =~= line@.subrange(
                start as int,
                i as int,
            ).push(line@[i as int]));
        }
        i += 1;
    }
    assert(line@.take(line.len() as int) =~= line@);
    spans.push((start, line.len()));
    spans
}

/// Whether a byte is one of the digits `0` to `9`.
pub open spec fn is_digit(b: u8) -> bool {
    48 <= b <= 57
}

/// Whether a token is made of digits alone.
pub open spec fn all_digits(token: Seq<u8>) -> bool {
    forall|i: int| 0 <= i < token.len() ==> is_digit(#[trigger] token[i])
}

/// The number that a run of digits spells in decimal.
pub open spec fn digits_value(token: Seq<u8>) -> nat
    decreases token.len(),
{
    if token.len() == 0 {
        0
    } else {
        digits_value(token.drop_last()) * 10 + (token.last() - 48) as nat
    }
}

/// The number that a token spells: one or more digits, nothing else.
pub open spec fn unsigned_number(token: Seq<u8>) -> Option<nat> {
    if token.len() > 0 && all_digits(token) {
        Some(digits_value(token))
    } else {
        None
    }
}

/// The integer that a token spells: a number, or a minus sign and a number.
pub open spec fn signed_number(token: Seq<u8>) -> Option<int> {
    if token.len() > 0 && token[0] == MINUS {
        match unsigned_number(token.skip(1)) {
            Some(n) => Some(-(n as int)),
            None => None,
        }
    } else {
        match unsigned_number(token) {
            Some(n) => Some(n as int),
            None => None,
        }
    }
}

/// The coordinate that a token spells: an integer in the range of `i32`.
pub open spec fn coordinate(token: Seq<u8>) -> Option<i32> {
    match signed_number(token) {
        Some(v) => if i32::MIN <= v <= i32::MAX {
            Some(v as i32)
        } else {
            None
        },
        None => None,
    }
}

/// The radius that a token spells: a number in the range of `u16`.
pub open spec fn radius(token: Seq<u8>) -> Option<u16> {
    match unsigned_number(token) {
        Some(n) => if n <= u16::MAX {
            Some(n as u16)
        } else {
            None
        },
        None => None,
    }
}

/// Digits that follow can only make a number larger.
proof fn lemma_digits_grow(token: Seq<u8>, upto: int)
    requires
        0 <= upto <= token.len(),
    ensures
        digits_value(token.take(upto)) <= digits_value(token),
    decreases token.len(),
{
    if upto == token.len() {
        assert(token.take(upto) =~= token);
    } else {
        lemma_digits_grow(token.drop_last(), upto);
        assert(token.drop_last().take(upto) =~= token.take(upto));
    }
}

/// Reads the number spelled by the bytes of `line` from `from` up to `to`,
/// provided it is at most `limit`.
fn read_number(line: &[u8], from: usize, to: usize, limit: u64) -> (number: Option<u64>)
    requires
        from <= to <= line.len(),
        limit <= 0x1_0000_0000,
    ensures
        number == match unsigned_number(line@.subrange(from as int, to as int)) {
            Some(n) => if n <= limit {
                Some(n as u64)
            } else {
                None
            },
            None => None,
        },
{
    let ghost token = line@.subrange(from as int, to as int);
    if from == to {
        return None;
    }
    let mut value: u64 = 0;
    let mut i: usize = from;
    assert(token.take(0) =~= Seq::<u8>::empty());
    while i < to
        invariant
            from <= i <= to <= line.len(),
            token == line@.subrange(from as int, to as int),
            limit <= 0x1_0000_0000,
            value <= limit,
            value == digits_value(token.take(i - from)),
            all_digits(token.take(i - from)),
        decreases to - i,
    {
        let b: u8 = line[i];
        assert(b == token[i - from]);
        if b < 48 || b > 57 {
            assert(!is_digit(token[i - from]));
            return None;
        }
        assert(token.take(i - from + 1).drop_last() =~= token.take(i - from));
        assert(token.take(i - from + 1).last() == b);
        value = value * 10 + (b - 48) as u64;
        i += 1;
        assert(all_digits(token.take(i - from))) by {
            assert forall|k: int| 0 <= k < i - from implies is_digit(
                #[trigger] token.take(i - from)[k],
            ) by {
                if k < i - from - 1 {
                    assert(token.take(i - from)[k] == token.take(i - from - 1)[k]);
                }
            }
        }
        if value > limit {
            proof {
                lemma_digits_grow(token, i - from);
            }
            return None;
        }
    }
    assert(token.take(to - from) =~= token);
    Some(value)
}

/// Reads the coordinate spelled by the bytes of `line` from `from` up to
/// `to`.
pub fn read_coordinate(line: &[u8], from: usize, to: usize) -> (value: Option<i32>)
    requires
        from <= to <= line.len(),
    ensures
        value == coordinate(line@.subrange(from as int, to as int)),
{
    let ghost token = line@.subrange(from as int, to as int);
    if from < to && line[from] == MINUS {
        assert(token[0] == MINUS);
        assert(token.skip(1) =~= line@.subrange(from + 1, to as int));
        match read_number(line, from + 1, to, 0x8000_0000) {
            Some(n) => {
                let wide: i64 = -(n as i64);
                Some(wide as i32)
            },
            None => None,
        }
    } else {
        assert(!(token.len() > 0 && token[0] == MINUS));
        match read_number(line, from, to, 0x7fff_ffff) {
            Some(n) => Some(n as i32),
            None => None,
        }
    }
}

/// Reads the radius spelled by the bytes of `line` from `from` up to `to`.
pub fn read_radius(line: &[u8], from: usize, to: usize) -> (value: Option<u16>)
    requires
        from <= to <= line.len(),
    ensures
        value == radius(line@.subrange(from as int, to as int)),
{
    match read_number(line, from, to, 0xffff) {
        Some(n) => Some(n as u16),
        None => None,
    }
}

/// The commands a client can send, by name.
#[derive(Clone, Copy, Debug, PartialEq, Eq)]
pub enum Verb {
    SetInterest,
    SetPosition,
    SetRotation,
}

/// A well-formed command: what a client asks for itself.
#[derive(Clone, Copy, Debug, PartialEq, Eq)]
pub enum Request {
    SetInterest { center: Position, radius: u16 },
    SetPosition { position: Position },
    SetRotation { rotation: Rotation },
}

/// What a line turned out to be.
#[derive(Clone, Copy, Debug, PartialEq, Eq)]
pub enum Parsed {
    /// A command with all its fields.
    Accepted(Request),
    /// A known command with too few or too many fields.
    Invalid(Verb),
    /// A known command with the right number of fields, one of which is no
    /// integer or is out of range.
    Malformed(Verb),
    /// Anything else.
    Unknown,
}

/// The name of a command as it stands on the wire, in ASCII.
pub open spec fn verb_word(verb: Verb) -> Seq<u8> {
    match verb {
        // SetInterest
        Verb::SetInterest => seq![83u8, 101, 116, 73, 110, 116, 101, 114, 101, 115, 116],
        // SetPosition
        Verb::SetPosition => seq![83u8, 101, 116, 80, 111, 115, 105, 116, 105, 111, 110],
        // SetRotation
        Verb::SetRotation => seq![83u8, 101, 116, 82, 111, 116, 97, 116, 105, 111, 110],
    }
}

/// The command that a token names.
pub open spec fn verb_of(token: Seq<u8>) -> Option<Verb> {
    if token == verb_word(Verb::SetInterest) {
        Some(Verb::SetInterest)
    } else if token == verb_word(Verb::SetPosition) {
        Some(Verb::SetPosition)
    } else if token == verb_word(Verb::SetRotation) {
        Some(Verb::SetRotation)
    } else {
        None
    }
}

/// How many fields a command takes.
pub open spec fn arity(verb: Verb) -> nat {
    match verb {
        Verb::SetInterest => 4,
        Verb::SetPosition => 3,
        Verb::SetRotation => 3,
    }
}

/// The triple that three tokens spell, if each spells a coordinate.
pub open spec fn triple(x: Seq<u8>, y: Seq<u8>, z: Seq<u8>) -> Option<(i32, i32, i32)> {
    match (coordinate(x), coordinate(y), coordinate(z)) {
        (Some(a), Some(b), Some(c)) => Some((a, b, c)),
        _ => None,
    }
}

/// The request that the fields of a command spell; `fields` begins with the
/// command's name and has the right length.
pub open spec fn request(verb: Verb, fields: Seq<Seq<u8>>) -> Option<Request> {
    match triple(fields[1], fields[2], fields[3]) {
        Some(point) => match verb {
            Verb::SetInterest => match radius(fields[4]) {
                Some(r) => Some(Request::SetInterest { center: point, radius: r }),
                None => None,
            },
            Verb::SetPosition => Some(Request::SetPosition { position: point }),
            Verb::SetRotation => Some(Request::SetRotation { rotation: point }),
        },
        None => None,
    }
}

/// What a line is: the first token names the command, the number of tokens
/// must fit it, and then every field must spell a value in range.
pub open spec fn parse(line: Seq<u8>) -> Parsed {
    let fields = tokens(line);
    match verb_of(fields[0]) {
        None => Parsed::Unknown,
        Some(verb) => if fields.len() != 1 + arity(verb) {
            Parsed::Invalid(verb)
        } else {
            match request(verb, fields) {
                Some(r) => Parsed::Accepted(r),
                None => Parsed::Malformed(verb),
            }
        },
    }
}

/// The name of a command as bytes.
fn word(verb: Verb) -> (w: [u8; 11])
    ensures
        w@ == verb_word(verb),
{
    let w: [u8; 11] = match verb {
        Verb::SetInterest => [83, 101, 116, 73, 110, 116, 101, 114, 101, 115, 116],
        Verb::SetPosition => [83, 101, 116, 80, 111, 115, 105, 116, 105, 111, 110],
        Verb::SetRotation => [83, 101, 116, 82, 111, 116, 97, 116, 105, 111, 110],
    };
    assert(w@ =~= verb_word(verb));
    w
}

/// Whether the bytes of `line` from `from` up to `to` are the name of `verb`.
fn names(line: &[u8], from: usize, to: usize, verb: Verb) -> (same: bool)
    requires
        from <= to <= line.len(),
    ensures
        same == (line@.subrange(from as int, to as int) == verb_word(verb)),
{
    let w = word(verb);
    let ghost token = line@.subrange(from as int, to as int);
    if to - from != 11 {
        assert(token.len() != verb_word(verb).len());
        return false;
    }
    let mut i: usize = 0;
    while i < 11
        invariant
            i <= 11,
            to - from == 11,
            to <= line.len(),
            token == line@.subrange(from as int, to as int),
            w@ == verb_word(verb),
            forall|k: int| 0 <= k < i ==> token[k] == w@[k],
        decreases 11 - i,
    {
        if line[from + i] != w[i] {
            assert(token[i as int] != verb_word(verb)[i as int]);
            return false;
        }
        i += 1;
    }
    assert(token =~= verb_word(verb));
    true
}

/// The command that the bytes of `line` from `from` up to `to` name.
fn read_verb(line: &[u8], from: usize, to: usize) -> (verb: Option<Verb>)
    requires
        from <= to <= line.len(),
    ensures
        verb == verb_of(line@.subrange(from as int, to as int)),
{
    if names(line, from, to, Verb::SetInterest) {
        Some(Verb::SetInterest)
    } else if names(line, from, to, Verb::SetPosition) {
        Some(Verb::SetPosition)
    } else if names(line, from, to, Verb::SetRotation) {
        Some(Verb::SetRotation)
    } else {
        None
    }
}

/// Reads three coordinates from three stretches of `line`.
fn read_triple(
    line: &[u8],
    x: (usize, usize),
    y: (usize, usize),
    z: (usize, usize),
) -> (point: Option<(i32, i32, i32)>)
    requires
        x.0 <= x.1 <= line.len(),
        y.0 <= y.1 <= line.len(),
        z.0 <= z.1 <= line.len(),
    ensures
        point == triple(
            line@.subrange(x.0 as int, x.1 as int),
            line@.subrange(y.0 as int, y.1 as int),
            line@.subrange(z.0 as int, z.1 as int),
        ),
{
    let a = read_coordinate(line, x.0, x.1);
    let b = read_coordinate(line, y.0, y.1);
    let c = read_coordinate(line, z.0, z.1);
    match (a, b, c) {
        (Some(a), Some(b), Some(c)) => Some((a, b, c)),
        _ => None,
    }
}

/// Reads one line from a client.
pub fn parse_command(line: &[u8]) -> (parsed: Parsed)
    ensures
        parsed == parse(line@),
{
    let spans = split(line);
    let ghost fields = tokens(line@);
    let name = spans[0];
    assert(line@.subrange(name.0 as int, name.1 as int) == fields[0]);
    let verb = match read_verb(line, name.0, name.1) {
        Some(verb) => verb,
        None => {
            return Parsed::Unknown;
        },
    };
    let wanted: usize = match verb {
        Verb::SetInterest => 5,
        Verb::SetPosition => 4,
        Verb::SetRotation => 4,
    };
    if spans.len() != wanted {
        return Parsed::Invalid(verb);
    }
    let x = spans[1];
    let y = spans[2];
    let z = spans[3];
    assert(line@.subrange(x.0 as int, x.1 as int) == fields[1]);
    assert(line@.subrange(y.0 as int, y.1 as int) == fields[2]);
    assert(line@.subrange(z.0 as int, z.1 as int) == fields[3]);
    let point = match read_triple(line, x, y, z) {
        Some(point) => point,
        None => {
            return Parsed::Malformed(verb);
        },
    };
    match verb {
        Verb::SetInterest => {
            let r = spans[4];
            assert(line@.subrange(r.0 as int, r.1 as int) == fields[4]);
            match read_radius(line, r.0, r.1) {
                Some(radius) => Parsed::Accepted(Request::SetInterest { center: point, radius }),
                None => Parsed::Malformed(verb),
            }
        },
        Verb::SetPosition => Parsed::Accepted(Request::SetPosition { position: point }),
        Verb::SetRotation => Parsed::Accepted(Request::SetRotation { rotation: point }),
    }
}

/// The acknowledgement that a line is answered with.
pub open spec fn ack_text(parsed: Parsed) -> Seq<char> {
    match parsed {
        Parsed::Accepted(Request::SetInterest { .. }) => "SetInterest Ok"@,
        Parsed::Accepted(Request::SetPosition { .. }) => "SetPosition Ok"@,
        Parsed::Accepted(Request::SetRotation { .. }) => "SetRotation Ok"@,
        Parsed::Invalid(Verb::SetInterest) => "SetInterest Invalid"@,
        Parsed::Invalid(Verb::SetPosition) => "SetPosition Invalid"@,
        Parsed::Invalid(Verb::SetRotation) => "SetRotation Invalid"@,
        Parsed::Malformed(Verb::SetInterest) => "SetInterest ParseError"@,
        Parsed::Malformed(Verb::SetPosition) => "SetPosition ParseError"@,
        Parsed::Malformed(Verb::SetRotation) => "SetRotation ParseError"@,
        Parsed::Unknown => "Invalid"@,
    }
}

/// The acknowledgement that a line is answered with, as text for a frame.
pub fn ack(parsed: Parsed) -> (text: &'static str)
    ensures
        text@ == ack_text(parsed),
{
    match parsed {
        Parsed::Accepted(Request::SetInterest { .. }) => "SetInterest Ok",
        Parsed::Accepted(Request::SetPosition { .. }) => "SetPosition Ok",
        Parsed::Accepted(Request::SetRotation { .. }) => "SetRotation Ok",
        Parsed::Invalid(Verb::SetInterest) => "SetInterest Invalid",
        Parsed::Invalid(Verb::SetPosition) => "SetPosition Invalid",
        Parsed::Invalid(Verb::SetRotation) => "SetRotation Invalid",
        Parsed::Malformed(Verb::SetInterest) => "SetInterest ParseError",
        Parsed::Malformed(Verb::SetPosition) => "SetPosition ParseError",
        Parsed::Malformed(Verb::SetRotation) => "SetRotation ParseError",
        Parsed::Unknown => "Invalid",
    }
}

} // verus!
