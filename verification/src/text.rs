//! What the addressing types say of themselves: the names of slots and sub-indices, and the
//! messages of the errors, lower case and without a full stop.

use vstd::prelude::*;

use crate::error::{DecodeBodyIndexError, EncodeBodyIndexError, ResolveBodyError};
use crate::id::{Layer, ResolveSystemError};
use crate::index::{BodySlot, BodySub};

verus! {

/// The character of the digit `d`, 0–15, in lower-case hexadecimal.
pub open spec fn digit_char(d: int) -> char {
    if d == 0 { '0' }
    else if d == 1 { '1' }
    else if d == 2 { '2' }
    else if d == 3 { '3' }
    else if d == 4 { '4' }
    else if d == 5 { '5' }
    else if d == 6 { '6' }
    else if d == 7 { '7' }
    else if d == 8 { '8' }
    else if d == 9 { '9' }
    else if d == 10 { 'a' }
    else if d == 11 { 'b' }
    else if d == 12 { 'c' }
    else if d == 13 { 'd' }
    else if d == 14 { 'e' }
    else { 'f' }
}

/// `n` in decimal, without leading zeros.
pub open spec fn decimal(n: nat) -> Seq<char>
    decreases n,
{
    if n < 10 {
        seq![digit_char(n as int)]
    } else {
        decimal(n / 10) + seq![digit_char((n % 10) as int)]
    }
}

/// `raw` as four lower-case hexadecimal digits.
pub open spec fn hex4(raw: u16) -> Seq<char> {
    seq![
        digit_char(raw as int / 4096),
        digit_char(raw as int / 256 % 16),
        digit_char(raw as int / 16 % 16),
        digit_char(raw as int % 16),
    ]
}

/// The name of a slot: the stellar level, or its kind and its number in its block.
pub open spec fn slot_name(slot: BodySlot) -> Seq<char> {
    match slot {
        BodySlot::Stellar => "the stellar level"@,
        BodySlot::Planet(n) => "planet "@ + decimal(n as nat),
        BodySlot::Belt(n) => "belt "@ + decimal(n as nat),
        BodySlot::SecondGeneration(n) => "second-generation planet "@ + decimal(n as nat),
    }
}

/// The name of a sub-index: the primary, or its kind and its number in its block.
pub open spec fn sub_name(sub: BodySub) -> Seq<char> {
    match sub {
        BodySub::Primary => "primary"@,
        BodySub::Component(n) => "component "@ + decimal(n as nat),
        BodySub::Moon(n) => "moon "@ + decimal(n as nat),
        BodySub::Ring(n) => "ring "@ + decimal(n as nat),
        BodySub::Member(n) => "member "@ + decimal(n as nat),
    }
}

/// The message of an encoding error.
pub open spec fn encode_message(e: EncodeBodyIndexError) -> Seq<char> {
    match e {
        EncodeBodyIndexError::SlotOutOfRange(slot) => slot_name(slot)
            + " is outside its block of slots"@,
        EncodeBodyIndexError::SubOutOfRange(sub) => sub_name(sub)
            + " is outside its block of sub-indices"@,
        EncodeBodyIndexError::SubNotInSlot { slot, sub } => slot_name(slot) + " holds no "@
            + sub_name(sub),
    }
}

/// The message of a decoding error.
pub open spec fn decode_message(e: DecodeBodyIndexError) -> Seq<char> {
    match e {
        DecodeBodyIndexError::ReservedSlot { raw } => "body index "@ + hex4(raw)
            + " is in a reserved slot"@,
        DecodeBodyIndexError::ReservedSub { raw } => "body index "@ + hex4(raw)
            + " is a sub-index its slot reserves"@,
    }
}

/// The name of a layer.
pub open spec fn layer_name(layer: Layer) -> Seq<char> {
    match layer {
        Layer::A => "a"@,
        Layer::BrownDwarf => "brown-dwarf"@,
    }
}

/// The message of a system's resolution error.
pub open spec fn system_message(e: ResolveSystemError) -> Seq<char> {
    match e {
        ResolveSystemError::NoSuchSystem => "no system has the identifier"@,
        ResolveSystemError::LayerNotGenerated(layer) => "the "@ + layer_name(layer)
            + " layer is not generated"@,
    }
}

/// The message of a resolution error, which names its cause's.
pub open spec fn resolve_message(e: ResolveBodyError) -> Seq<char> {
    match e {
        ResolveBodyError::NoSuchSystem(s) => "the body's system does not resolve: "@
            + system_message(s),
        ResolveBodyError::NoSuchBody => "the system holds no such body"@,
        ResolveBodyError::MalformedIndex(d) => "the body index is malformed: "@ + decode_message(
            d,
        ),
    }
}

/// The string of the single digit `d`, 0–15.
fn digit_str(d: u8) -> (s: &'static str)
    requires
        d < 16,
    ensures
        s@ == seq![digit_char(d as int)],
{
    match d {
        0 => { proof { reveal_strlit("0"); } "0" },
        1 => { proof { reveal_strlit("1"); } "1" },
        2 => { proof { reveal_strlit("2"); } "2" },
        3 => { proof { reveal_strlit("3"); } "3" },
        4 => { proof { reveal_strlit("4"); } "4" },
        5 => { proof { reveal_strlit("5"); } "5" },
        6 => { proof { reveal_strlit("6"); } "6" },
        7 => { proof { reveal_strlit("7"); } "7" },
        8 => { proof { reveal_strlit("8"); } "8" },
        9 => { proof { reveal_strlit("9"); } "9" },
        10 => { proof { reveal_strlit("a"); } "a" },
        11 => { proof { reveal_strlit("b"); } "b" },
        12 => { proof { reveal_strlit("c"); } "c" },
        13 => { proof { reveal_strlit("d"); } "d" },
        14 => { proof { reveal_strlit("e"); } "e" },
        _ => { proof { reveal_strlit("f"); } "f" },
    }
}

/// Appends `n` in decimal to `s`.
pub fn push_decimal(s: &mut String, n: u8)
    ensures
        final(s)@ == old(s)@ + decimal(n as nat),
{
    let ghost start = s@;
    if n >= 100 {
        s.append(digit_str(n / 100));
        s.append(digit_str(n / 10 % 10));
        s.append(digit_str(n % 10));
        proof {
            assert(decimal((n / 10) as nat) == decimal((n / 100) as nat) + seq![digit_char((n / 10 % 10) as int)]);
            assert(decimal((n / 100) as nat) == seq![digit_char((n / 100) as int)]);
        }
    } else if n >= 10 {
        s.append(digit_str(n / 10));
        s.append(digit_str(n % 10));
        proof {
            assert(decimal((n / 10) as nat) == seq![digit_char((n / 10) as int)]);
        }
    } else {
        s.append(digit_str(n));
    }
    proof {
        assert(s@ =~= start + decimal(n as nat));
    }
}

/// Appends `raw` as four hexadecimal digits to `s`.
pub fn push_hex4(s: &mut String, raw: u16)
    ensures
        final(s)@ == old(s)@ + hex4(raw),
{
    let ghost start = s@;
    s.append(digit_str((raw / 4096) as u8));
    s.append(digit_str((raw / 256 % 16) as u8));
    s.append(digit_str((raw / 16 % 16) as u8));
    s.append(digit_str((raw % 16) as u8));
    proof {
        assert(s@ =~= start + hex4(raw));
    }
}

/// A string holding `words`.
pub fn literal(words: &str) -> (s: String)
    ensures
        s@ == words@,
{
    String::from_str(words)
}

/// Whether `text` is `before`, then a text `show` gives of `value`, then `after`.
pub open spec fn framed<Q, F: Fn(Q) -> String>(
    text: Seq<char>,
    before: Seq<char>,
    show: F,
    value: Q,
    after: Seq<char>,
) -> bool {
    exists|shown: String| show.ensures((value,), shown) && text == before + shown@ + after
}

/// The words `before`, the text `show` gives of `value`, then the words `after`: a message that
/// names a measured value, in whatever form the caller writes it.
pub fn frame<Q, F: Fn(Q) -> String>(before: &str, show: &F, value: Q, after: &str) -> (s: String)
    requires
        show.requires((value,)),
    ensures
        framed(s@, before@, *show, value, after@),
{
    let shown = show(value);
    let mut s = String::from_str(before);
    s.append(shown.as_str());
    s.append(after);
    s
}

/// Whether `text` is `before`, a text `show` gives of `first`, `between`, a text it gives of
/// `second`, then `after`.
pub open spec fn framed_two<Q, F: Fn(Q) -> String>(
    text: Seq<char>,
    before: Seq<char>,
    show: F,
    first: Q,
    between: Seq<char>,
    second: Q,
    after: Seq<char>,
) -> bool {
    exists|a: String, b: String|
        show.ensures((first,), a) && show.ensures((second,), b) && text == before + a@ + between
            + b@ + after
}

/// The words `before`, the text `show` gives of `first`, the words `between`, the text it gives
/// of `second`, then the words `after`.
pub fn frame_two<Q, F: Fn(Q) -> String>(
    before: &str,
    show: &F,
    first: Q,
    between: &str,
    second: Q,
    after: &str,
) -> (s: String)
    requires
        show.requires((first,)),
        show.requires((second,)),
    ensures
        framed_two(s@, before@, *show, first, between@, second, after@),
{
    let a = show(first);
    let b = show(second);
    let mut s = String::from_str(before);
    s.append(a.as_str());
    s.append(between);
    s.append(b.as_str());
    s.append(after);
    s
}

impl BodySlot {
    /// Appends the slot's name to `s`.
    fn push_name(&self, s: &mut String)
        ensures
            final(s)@ == old(s)@ + slot_name(*self),
    {
        match *self {
            BodySlot::Stellar => s.append("the stellar level"),
            BodySlot::Planet(n) => {
                s.append("planet ");
                push_decimal(s, n);
            },
            BodySlot::Belt(n) => {
                s.append("belt ");
                push_decimal(s, n);
            },
            BodySlot::SecondGeneration(n) => {
                s.append("second-generation planet ");
                push_decimal(s, n);
            },
        }
        assert(s@ =~= old(s)@ + slot_name(*self));
    }

    /// The slot's name: `the stellar level`, or its kind and number, such as `planet 3`.
    pub fn name(&self) -> (s: String)
        ensures
            s@ == slot_name(*self),
    {
        let mut s = String::new();
        self.push_name(&mut s);
        s
    }
}

impl BodySub {
    /// Appends the sub-index's name to `s`.
    fn push_name(&self, s: &mut String)
        ensures
            final(s)@ == old(s)@ + sub_name(*self),
    {
        match *self {
            BodySub::Primary => s.append("primary"),
            BodySub::Component(n) => {
                s.append("component ");
                push_decimal(s, n);
            },
            BodySub::Moon(n) => {
                s.append("moon ");
                push_decimal(s, n);
            },
            BodySub::Ring(n) => {
                s.append("ring ");
                push_decimal(s, n);
            },
            BodySub::Member(n) => {
                s.append("member ");
                push_decimal(s, n);
            },
        }
        assert(s@ =~= old(s)@ + sub_name(*self));
    }

    /// The sub-index's name: `primary`, or its kind and number, such as `moon 3`.
    pub fn name(&self) -> (s: String)
        ensures
            s@ == sub_name(*self),
    {
        let mut s = String::new();
        self.push_name(&mut s);
        s
    }
}

impl EncodeBodyIndexError {
    /// The error's message, such as `planet 0 is outside its block of slots`.
    pub fn message(&self) -> (s: String)
        ensures
            s@ == encode_message(*self),
            error_style(s@),
    {
        proof {
            lemma_encode_message_style(*self);
        }
        let mut s = String::new();
        match *self {
            EncodeBodyIndexError::SlotOutOfRange(slot) => {
                slot.push_name(&mut s);
                s.append(" is outside its block of slots");
            },
            EncodeBodyIndexError::SubOutOfRange(sub) => {
                sub.push_name(&mut s);
                s.append(" is outside its block of sub-indices");
            },
            EncodeBodyIndexError::SubNotInSlot { slot, sub } => {
                slot.push_name(&mut s);
                s.append(" holds no ");
                sub.push_name(&mut s);
            },
        }
        assert(s@ =~= encode_message(*self));
        s
    }
}

impl DecodeBodyIndexError {
    /// Appends the error's message to `s`.
    fn push_message(&self, s: &mut String)
        ensures
            final(s)@ == old(s)@ + decode_message(*self),
    {
        match *self {
            DecodeBodyIndexError::ReservedSlot { raw } => {
                s.append("body index ");
                push_hex4(s, raw);
                s.append(" is in a reserved slot");
            },
            DecodeBodyIndexError::ReservedSub { raw } => {
                s.append("body index ");
                push_hex4(s, raw);
                s.append(" is a sub-index its slot reserves");
            },
        }
        assert(s@ =~= old(s)@ + decode_message(*self));
    }

    /// The error's message, such as `body index d000 is in a reserved slot`.
    pub fn message(&self) -> (s: String)
        ensures
            s@ == decode_message(*self),
            error_style(s@),
    {
        proof {
            lemma_decode_message_plain(*self);
        }
        let mut s = String::new();
        self.push_message(&mut s);
        s
    }
}

impl ResolveSystemError {
    /// Appends the error's message to `s`.
    fn push_message(&self, s: &mut String)
        ensures
            final(s)@ == old(s)@ + system_message(*self),
    {
        match *self {
            ResolveSystemError::NoSuchSystem => s.append("no system has the identifier"),
            ResolveSystemError::LayerNotGenerated(layer) => {
                s.append("the ");
                match layer {
                    Layer::A => s.append("a"),
                    Layer::BrownDwarf => s.append("brown-dwarf"),
                }
                s.append(" layer is not generated");
            },
        }
        assert(s@ =~= old(s)@ + system_message(*self));
    }

    /// The error's message.
    pub fn message(&self) -> (s: String)
        ensures
            s@ == system_message(*self),
            error_style(s@),
    {
        proof {
            lemma_system_message_style(*self);
        }
        let mut s = String::new();
        self.push_message(&mut s);
        s
    }
}

impl ResolveBodyError {
    /// The error's message, which names its cause's.
    pub fn message(&self) -> (s: String)
        ensures
            s@ == resolve_message(*self),
            error_style(s@),
    {
        proof {
            lemma_resolve_message_style(*self);
        }
        match *self {
            ResolveBodyError::NoSuchSystem(e) => {
                let mut s = literal("the body's system does not resolve: ");
                e.push_message(&mut s);
                s
            },
            ResolveBodyError::NoSuchBody => literal("the system holds no such body"),
            ResolveBodyError::MalformedIndex(e) => {
                let mut s = literal("the body index is malformed: ");
                e.push_message(&mut s);
                s
            },
        }
    }
}

/// Whether `text` is written as an error message is: not empty, not starting with a capital,
/// and not ending with a full stop.
pub open spec fn error_style(text: Seq<char>) -> bool {
    &&& text.len() > 0
    &&& !('A' <= text[0] && text[0] <= 'Z')
    &&& text.last() != '.'
}

/// A message framed by words that start without a capital and end without a full stop is
/// written as an error message is.
pub proof fn lemma_framed_in_error_style<Q, F: Fn(Q) -> String>(
    text: Seq<char>,
    before: Seq<char>,
    show: F,
    value: Q,
    after: Seq<char>,
)
    requires
        framed(text, before, show, value, after),
        before.len() > 0,
        !('A' <= before[0] && before[0] <= 'Z'),
        after.len() > 0,
        after.last() != '.',
    ensures
        error_style(text),
{
    let shown = choose|shown: String|
        show.ensures((value,), shown) && text == before + shown@ + after;
    assert(text[0] == before[0]);
    assert(text.last() == after.last());
}

/// A message framed by words that start without a capital and end without a full stop, around
/// two values, is written as an error message is.
pub proof fn lemma_framed_two_in_error_style<Q, F: Fn(Q) -> String>(
    text: Seq<char>,
    before: Seq<char>,
    show: F,
    first: Q,
    between: Seq<char>,
    second: Q,
    after: Seq<char>,
)
    requires
        framed_two(text, before, show, first, between, second, after),
        before.len() > 0,
        !('A' <= before[0] && before[0] <= 'Z'),
        after.len() > 0,
        after.last() != '.',
    ensures
        error_style(text),
{
    let (a, b) = choose|a: String, b: String|
        show.ensures((first,), a) && show.ensures((second,), b) && text == before + a@ + between
            + b@ + after;
    assert(text[0] == before[0]);
    assert(text.last() == after.last());
}

/// Whether `c` is a lower-case letter or a digit.
spec fn plain_char(c: char) -> bool {
    ('a' <= c && c <= 'z') || ('0' <= c && c <= '9')
}

/// A number in decimal is digits, and so neither starts with a capital nor ends with a full stop.
proof fn lemma_decimal_plain(n: nat)
    ensures
        decimal(n).len() > 0,
        plain_char(decimal(n)[0]),
        plain_char(decimal(n).last()),
    decreases n,
{
    if n >= 10 {
        lemma_decimal_plain(n / 10);
        assert((decimal(n / 10) + seq![digit_char((n % 10) as int)])[0] == decimal(n / 10)[0]);
    }
}

/// A word, then a number.
proof fn lemma_word_then_number(word: Seq<char>, n: nat)
    requires
        word.len() > 0,
        plain_char(word[0]),
    ensures
        (word + decimal(n)).len() > 0,
        plain_char((word + decimal(n))[0]),
        plain_char((word + decimal(n)).last()),
{
    lemma_decimal_plain(n);
    assert((word + decimal(n)).last() == decimal(n).last());
}

/// A slot's name starts and ends with a lower-case letter or a digit.
proof fn lemma_slot_name_plain(slot: BodySlot)
    ensures
        slot_name(slot).len() > 0,
        plain_char(slot_name(slot)[0]),
        plain_char(slot_name(slot).last()),
{
    reveal_strlit("the stellar level");
    reveal_strlit("planet ");
    reveal_strlit("belt ");
    reveal_strlit("second-generation planet ");
    match slot {
        BodySlot::Stellar => {},
        BodySlot::Planet(n) => lemma_word_then_number("planet "@, n as nat),
        BodySlot::Belt(n) => lemma_word_then_number("belt "@, n as nat),
        BodySlot::SecondGeneration(n) => lemma_word_then_number(
            "second-generation planet "@,
            n as nat,
        ),
    }
}

/// A sub-index's name starts and ends with a lower-case letter or a digit.
proof fn lemma_sub_name_plain(sub: BodySub)
    ensures
        sub_name(sub).len() > 0,
        plain_char(sub_name(sub)[0]),
        plain_char(sub_name(sub).last()),
{
    reveal_strlit("primary");
    reveal_strlit("component ");
    reveal_strlit("moon ");
    reveal_strlit("ring ");
    reveal_strlit("member ");
    match sub {
        BodySub::Primary => {},
        BodySub::Component(n) => lemma_word_then_number("component "@, n as nat),
        BodySub::Moon(n) => lemma_word_then_number("moon "@, n as nat),
        BodySub::Ring(n) => lemma_word_then_number("ring "@, n as nat),
        BodySub::Member(n) => lemma_word_then_number("member "@, n as nat),
    }
}

/// A decoding error's message starts with a lower-case letter and ends with one.
proof fn lemma_decode_message_plain(e: DecodeBodyIndexError)
    ensures
        decode_message(e).len() > 0,
        plain_char(decode_message(e)[0]),
        plain_char(decode_message(e).last()),
{
    reveal_strlit("body index ");
    reveal_strlit(" is in a reserved slot");
    reveal_strlit(" is a sub-index its slot reserves");
    match e {
        DecodeBodyIndexError::ReservedSlot { raw } => {
            let t = "body index "@ + hex4(raw) + " is in a reserved slot"@;
            assert(t[0] == 'b');
            assert(t.last() == 't');
        },
        DecodeBodyIndexError::ReservedSub { raw } => {
            let t = "body index "@ + hex4(raw) + " is a sub-index its slot reserves"@;
            assert(t[0] == 'b');
            assert(t.last() == 's');
        },
    }
}

/// An encoding error's message is written as an error message is.
proof fn lemma_encode_message_style(encode: EncodeBodyIndexError)
    ensures
        error_style(encode_message(encode)),
{
    reveal_strlit(" is outside its block of slots");
    reveal_strlit(" is outside its block of sub-indices");
    reveal_strlit(" holds no ");
    match encode {
        EncodeBodyIndexError::SlotOutOfRange(slot) => {
            lemma_slot_name_plain(slot);
            let t = slot_name(slot) + " is outside its block of slots"@;
            assert(t[0] == slot_name(slot)[0]);
            assert(t.last() == 's');
        },
        EncodeBodyIndexError::SubOutOfRange(sub) => {
            lemma_sub_name_plain(sub);
            let t = sub_name(sub) + " is outside its block of sub-indices"@;
            assert(t[0] == sub_name(sub)[0]);
            assert(t.last() == 's');
        },
        EncodeBodyIndexError::SubNotInSlot { slot, sub } => {
            lemma_slot_name_plain(slot);
            lemma_sub_name_plain(sub);
            let t = slot_name(slot) + " holds no "@ + sub_name(sub);
            assert(t[0] == slot_name(slot)[0]);
            assert(t.last() == sub_name(sub).last());
        },
    }
}

/// A system's resolution error's message is written as an error message is, and ends with a
/// letter.
proof fn lemma_system_message_style(e: ResolveSystemError)
    ensures
        error_style(system_message(e)),
        plain_char(system_message(e).last()),
{
    reveal_strlit("no system has the identifier");
    reveal_strlit("the ");
    reveal_strlit(" layer is not generated");
    reveal_strlit("a");
    reveal_strlit("brown-dwarf");
    if let ResolveSystemError::LayerNotGenerated(layer) = e {
        let t = "the "@ + layer_name(layer) + " layer is not generated"@;
        assert(t[0] == 't');
        assert(t.last() == 'd');
    }
}

/// A resolution error's message is written as an error message is.
proof fn lemma_resolve_message_style(resolve: ResolveBodyError)
    ensures
        error_style(resolve_message(resolve)),
{
    reveal_strlit("the body's system does not resolve: ");
    reveal_strlit("the system holds no such body");
    reveal_strlit("the body index is malformed: ");
    match resolve {
        ResolveBodyError::NoSuchSystem(s) => {
            lemma_system_message_style(s);
            let t = "the body's system does not resolve: "@ + system_message(s);
            assert(t[0] == 't');
            assert(t.last() == system_message(s).last());
        },
        ResolveBodyError::NoSuchBody => {},
        ResolveBodyError::MalformedIndex(d) => {
            lemma_decode_message_plain(d);
            let t = "the body index is malformed: "@ + decode_message(d);
            assert(t[0] == 't');
            assert(t.last() == decode_message(d).last());
        },
    }
}

/// Every message of the addressing errors is written as an error message is: lower case at the
/// start, with no full stop at the end.
pub proof fn lemma_messages_in_error_style(
    encode: EncodeBodyIndexError,
    decode: DecodeBodyIndexError,
    resolve: ResolveBodyError,
)
    ensures
        error_style(encode_message(encode)),
        error_style(decode_message(decode)),
        error_style(resolve_message(resolve)),
{
    lemma_encode_message_style(encode);
    lemma_decode_message_plain(decode);
    lemma_resolve_message_style(resolve);
}

} // verus!
