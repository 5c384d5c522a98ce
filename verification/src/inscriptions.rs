//! A state machine that recognises inscription envelopes in script bytes.
//!
//! An envelope opens with a pushed empty value and a conditional, names
//! itself with the marker `ord`, lists tagged header fields, and carries its
//! content as a run of data pushes up to the end of the conditional.

use crate::codec::{decimal_digits, decimal_string, string_from_utf8, text_of, utf8_or_hex};
use crate::pb::{inscription_views, opt_text, Inscription, InscriptionView};
use vstd::prelude::*;
use vstd::slice::{slice_subrange, slice_to_vec};
use vstd::string::StringExecFns;
use vstd::utf8::{decode_utf8, valid_utf8};

verus! {

/// A tagged header field of an inscription.
#[derive(Clone, Copy, Debug, PartialEq, Eq, Structural)]
pub enum Field {
    ContentType,
    Pointer,
    Parent,
    Metadata,
    MetaProtocol,
    ContentEncoding,
}

/// Where the decoder stands in the script.
#[derive(Clone, Copy, Debug, PartialEq, Eq, Structural)]
pub enum State {
    /// Outside any envelope.
    Scanning,
    /// An envelope has opened; its marker comes next.
    Envelope,
    /// Inside the header of an inscription.
    Inscription,
    /// Inside an envelope that is no inscription.
    NotInscription,
    /// The value of a header field comes next.
    Field(Field),
    /// Inside the content of an inscription.
    Content,
}

/// Why the script of a transaction could not be decoded.
#[derive(Clone, Copy, Debug, PartialEq, Eq, Structural)]
pub enum DecodeError {
    /// The input ends inside a value that it announced, or a value that has
    /// to be UTF-8 is not.
    MalformedEnvelope,
    /// A header field carries a tag that the protocol does not define.
    UnknownFieldCode,
    /// The input ends inside an inscription.
    IncompleteParse,
}

/// Opcode that pushes an empty value.
pub const OP_FALSE: u8 = 0x00;

/// Opcode that opens a conditional.
pub const OP_IF: u8 = 0x63;

/// Opcode that closes a conditional.
pub const OP_ENDIF: u8 = 0x68;

/// Byte that announces a header field.
pub const FIELD_PREFIX: u8 = 0x01;

/// Largest opcode that pushes as many bytes as its own value.
pub const MAX_DIRECT_PUSH: u8 = 0x4b;

/// Opcode of a push whose length is one byte.
pub const OP_PUSHDATA1: u8 = 0x4c;

/// Opcode of a push whose length is two bytes.
pub const OP_PUSHDATA2: u8 = 0x4d;

/// Opcode of a push with the widest length field.
pub const OP_PUSHDATA4: u8 = 0x4e;

/// Width in bytes of the length that `parse_inscriptions` reads after
/// `OP_PUSHDATA4`. Bitcoin script defines four bytes for that opcode;
/// `parse_inscriptions_with_width` takes the width as an argument.
pub const PUSHDATA4_LENGTH_BYTES: usize = 3;

/// The bytes of the marker `ord`.
pub open spec fn ord_marker() -> Seq<u8> {
    seq![0x6fu8, 0x72u8, 0x64u8]
}

impl Field {
    /// The field that a tag stands for, if the protocol defines the tag.
    pub open spec fn of_code(code: u8) -> Option<Field> {
        if code == 1 {
            Some(Field::ContentType)
        } else if code == 2 {
            Some(Field::Pointer)
        } else if code == 3 {
            Some(Field::Parent)
        } else if code == 5 {
            Some(Field::Metadata)
        } else if code == 7 {
            Some(Field::MetaProtocol)
        } else if code == 9 {
            Some(Field::ContentEncoding)
        } else {
            None
        }
    }

    /// The tag of a field.
    pub open spec fn spec_code(self) -> u8 {
        match self {
            Field::ContentType => 1,
            Field::Pointer => 2,
            Field::Parent => 3,
            Field::Metadata => 5,
            Field::MetaProtocol => 7,
            Field::ContentEncoding => 9,
        }
    }

    /// Reads a tag; `None` for a tag that the protocol does not define.
    pub fn from_code(code: u8) -> (field: Option<Field>)
        ensures
            field == Field::of_code(code),
    {
        match code {
            1 => Some(Field::ContentType),
            2 => Some(Field::Pointer),
            3 => Some(Field::Parent),
            5 => Some(Field::Metadata),
            7 => Some(Field::MetaProtocol),
            9 => Some(Field::ContentEncoding),
            _ => None,
        }
    }

    /// The tag that announces this field in a header.
    pub fn code(&self) -> (code: u8)
        ensures
            code == self.spec_code(),
    {
        match self {
            Field::ContentType => 1,
            Field::Pointer => 2,
            Field::Parent => 3,
            Field::Metadata => 5,
            Field::MetaProtocol => 7,
            Field::ContentEncoding => 9,
        }
    }
}

/// Fields and tags correspond one to one: a field's tag reads back as the
/// field, and a tag that reads as a field is that field's tag.
pub proof fn lemma_field_codes_one_to_one(field: Field, code: u8)
    ensures
        Field::of_code(field.spec_code()) == Some(field),
        Field::of_code(code) == Some(field) ==> code == field.spec_code(),
{
}

/// Value of a byte string read as a little-endian number: byte `i` counts
/// `256^i` times.
pub open spec fn le_value(bytes: Seq<u8>) -> nat
    decreases bytes.len(),
{
    if bytes.len() == 0 {
        0
    } else {
        bytes[0] as nat + 256 * le_value(bytes.drop_first())
    }
}

/// Value of the first eight bytes, or of all where there are fewer, read as
/// a little-endian number.
pub open spec fn le_uint_spec(bytes: Seq<u8>) -> nat {
    le_value(
        if bytes.len() > 8 {
            bytes.take(8)
        } else {
            bytes
        },
    )
}

/// `256^k`.
pub open spec fn pow256(k: nat) -> nat
    decreases k,
{
    if k == 0 {
        1
    } else {
        256 * pow256((k - 1) as nat)
    }
}

/// A little-endian number of `k` bytes is below `256^k`.
pub proof fn lemma_le_value_bound(bytes: Seq<u8>)
    ensures
        le_value(bytes) < pow256(bytes.len()),
    decreases bytes.len(),
{
    if bytes.len() > 0 {
        lemma_le_value_bound(bytes.drop_first());
    }
}

/// Reads up to eight bytes as a little-endian unsigned number. No bytes
/// give zero; bytes after the eighth are not read.
pub fn parse_little_endian_uint(bytes: Vec<u8>) -> (value: u64)
    ensures
        value as nat == le_uint_spec(bytes@),
{
    let n: usize = if bytes.len() > 8 {
        8
    } else {
        bytes.len()
    };
    let ghost used: Seq<u8> = if bytes@.len() > 8 {
        bytes@.take(8)
    } else {
        bytes@
    };
    let mut value: u64 = 0;
    let mut i: usize = n;
    proof {
        reveal_with_fuel(pow256, 9);
    }
    while i > 0
        invariant
            i <= n <= 8,
            n == used.len(),
            n <= bytes.len(),
            forall|j: int| 0 <= j < n ==> used[j] == bytes@[j],
            value as nat == le_value(used.skip(i as int)),
        decreases i,
    {
        proof {
            reveal_with_fuel(pow256, 9);
            lemma_le_value_bound(used.skip(i as int));
            assert(used.skip(i as int - 1).drop_first() =~= used.skip(i as int));
            assert(pow256((n - i) as nat) <= pow256(7));
        }
        i = i - 1;
        value = value * 256 + bytes[i] as u64;
    }
    proof {
        assert(used.skip(0) =~= used);
    }
    value
}

/// A 64-bit unsigned number stored in a signed field of the same width:
/// values from `2^63` on wrap to the negative numbers.
pub open spec fn pointer_of(value: nat) -> i64 {
    if value <= i64::MAX {
        value as i64
    } else {
        (value - 0x1_0000_0000_0000_0000) as i64
    }
}

/// Stores an unsigned 64-bit number in a signed one of the same width.
pub fn pointer_from_u64(value: u64) -> (pointer: i64)
    ensures
        pointer == pointer_of(value as nat),
{
    if value <= 0x7fff_ffff_ffff_ffff {
        value as i64
    } else {
        let high: u64 = value - 0x8000_0000_0000_0000;
        high as i64 + i64::MIN
    }
}

/// The `n` bytes from `from` on, if the input holds that many.
pub open spec fn run_at(bytes: Seq<u8>, from: int, n: int) -> Option<Seq<u8>> {
    if from + n <= bytes.len() {
        Some(bytes.subrange(from, from + n))
    } else {
        None
    }
}

/// Copies the `n` bytes from `from` on; `None` if the input ends before.
pub fn take_n(bytes: &Vec<u8>, from: usize, n: usize) -> (run: Option<Vec<u8>>)
    requires
        from <= bytes.len(),
    ensures
        match run_at(bytes@, from as int, n as int) {
            Some(expected) => run is Some && run->0@ == expected,
            None => run is None,
        },
{
    if n > bytes.len() - from {
        None
    } else {
        Some(slice_to_vec(slice_subrange(bytes.as_slice(), from, from + n)))
    }
}

/// An inscription under construction.
pub struct InscriptionBuilder {
    pub id: String,
    pub content_type: Option<String>,
    pub pointer: Option<i64>,
    pub parent: Option<String>,
    pub metadata: Option<String>,
    pub metaprotocol: Option<String>,
    pub content_encoding: Option<String>,
    pub content: String,
}

impl View for InscriptionBuilder {
    type V = InscriptionView;

    open spec fn view(&self) -> InscriptionView {
        InscriptionView {
            id: self.id@,
            content_type: opt_text(self.content_type),
            pointer: self.pointer,
            parent: opt_text(self.parent),
            metadata: opt_text(self.metadata),
            metaprotocol: opt_text(self.metaprotocol),
            content_encoding: opt_text(self.content_encoding),
            content: self.content@,
        }
    }
}

impl InscriptionBuilder {
    /// An inscription with the given identifier and nothing else set.
    pub fn new(id: String) -> (builder: Self)
        ensures
            builder@ == InscriptionView::empty(id@),
    {
        Self {
            id,
            content_type: None,
            pointer: None,
            parent: None,
            metadata: None,
            metaprotocol: None,
            content_encoding: None,
            content: String::new(),
        }
    }

    /// Sets the content type.
    pub fn content_type(&mut self, content_type: String)
        ensures
            final(self)@ == (InscriptionView { content_type: Some(content_type@), ..old(self)@ }),
    {
        self.content_type = Some(content_type)
    }

    /// Sets the pointer.
    pub fn pointer(&mut self, pointer: i64)
        ensures
            final(self)@ == (InscriptionView { pointer: Some(pointer), ..old(self)@ }),
    {
        self.pointer = Some(pointer)
    }

    /// Sets the parent.
    pub fn parent(&mut self, parent: String)
        ensures
            final(self)@ == (InscriptionView { parent: Some(parent@), ..old(self)@ }),
    {
        self.parent = Some(parent)
    }

    /// Sets the metadata.
    pub fn metadata(&mut self, metadata: String)
        ensures
            final(self)@ == (InscriptionView { metadata: Some(metadata@), ..old(self)@ }),
    {
        self.metadata = Some(metadata)
    }

    /// Sets the protocol tag.
    pub fn metaprotocol(&mut self, metaprotocol: String)
        ensures
            final(self)@ == (InscriptionView { metaprotocol: Some(metaprotocol@), ..old(self)@ }),
    {
        self.metaprotocol = Some(metaprotocol)
    }

    /// Sets the content encoding.
    pub fn content_encoding(&mut self, content_encoding: String)
        ensures
            final(self)@ == (InscriptionView {
                content_encoding: Some(content_encoding@),
                ..old(self)@
            }),
    {
        self.content_encoding = Some(content_encoding)
    }

    /// Appends a part to the content.
    pub fn append_content(&mut self, content_part: String)
        ensures
            final(self)@ == (InscriptionView {
                content: old(self)@.content + content_part@,
                ..old(self)@
            }),
    {
        self.content.append(content_part.as_str())
    }

    /// The inscription as it stands.
    pub fn build(self) -> (inscription: Inscription)
        ensures
            inscription@ == self@,
    {
        Inscription {
            id: self.id,
            content_type: self.content_type,
            pointer: self.pointer,
            parent: self.parent,
            metadata: self.metadata,
            metaprotocol: self.metaprotocol,
            content_encoding: self.content_encoding,
            content: self.content,
        }
    }
}

/// What a step of the decoder has read for the inscription under
/// construction.
#[derive(Clone, Debug, PartialEq, Eq)]
pub enum Event {
    /// Nothing that the inscription records.
    Nothing,
    ContentType(String),
    Pointer(i64),
    Parent(String),
    Metadata(String),
    MetaProtocol(String),
    ContentEncoding(String),
    /// A chunk of content, to be appended.
    Content(String),
    /// The envelope has closed: the inscription is complete.
    Finished,
}

/// An event, as plain mathematical values.
pub ghost enum EventView {
    Nothing,
    ContentType(Seq<char>),
    Pointer(i64),
    Parent(Seq<char>),
    Metadata(Seq<char>),
    MetaProtocol(Seq<char>),
    ContentEncoding(Seq<char>),
    Content(Seq<char>),
    Finished,
}

impl View for Event {
    type V = EventView;

    open spec fn view(&self) -> EventView {
        match self {
            Event::Nothing => EventView::Nothing,
            Event::ContentType(text) => EventView::ContentType(text@),
            Event::Pointer(pointer) => EventView::Pointer(*pointer),
            Event::Parent(text) => EventView::Parent(text@),
            Event::Metadata(text) => EventView::Metadata(text@),
            Event::MetaProtocol(text) => EventView::MetaProtocol(text@),
            Event::ContentEncoding(text) => EventView::ContentEncoding(text@),
            Event::Content(text) => EventView::Content(text@),
            Event::Finished => EventView::Finished,
        }
    }
}

/// The inscription under construction after an event: a field event sets
/// its field, a content event appends to the content, and the others change
/// nothing.
pub open spec fn apply_spec(draft: InscriptionView, event: EventView) -> InscriptionView {
    match event {
        EventView::Nothing => draft,
        EventView::ContentType(text) => InscriptionView { content_type: Some(text), ..draft },
        EventView::Pointer(pointer) => InscriptionView { pointer: Some(pointer), ..draft },
        EventView::Parent(text) => InscriptionView { parent: Some(text), ..draft },
        EventView::Metadata(text) => InscriptionView { metadata: Some(text), ..draft },
        EventView::MetaProtocol(text) => InscriptionView { metaprotocol: Some(text), ..draft },
        EventView::ContentEncoding(text) => InscriptionView {
            content_encoding: Some(text),
            ..draft
        },
        EventView::Content(text) => InscriptionView { content: draft.content + text, ..draft },
        EventView::Finished => draft,
    }
}

impl InscriptionBuilder {
    /// Records what a step of the decoder has read.
    pub fn apply(&mut self, event: Event)
        ensures
            final(self)@ == apply_spec(old(self)@, event@),
    {
        match event {
            Event::Nothing => {},
            Event::ContentType(text) => self.content_type(text),
            Event::Pointer(pointer) => self.pointer(pointer),
            Event::Parent(text) => self.parent(text),
            Event::Metadata(text) => self.metadata(text),
            Event::MetaProtocol(text) => self.metaprotocol(text),
            Event::ContentEncoding(text) => self.content_encoding(text),
            Event::Content(text) => {
                self.append_content(text);
            },
            Event::Finished => {},
        }
    }
}

/// What one step of the decoder leaves: the state it enters, the position
/// up to which it has read, and what it has read for the inscription.
pub ghost struct Step {
    pub state: State,
    pub pos: int,
    pub event: EventView,
}

/// The event that gives a header field its value, or `None` where the
/// value is not acceptable for the field: the content type has to be UTF-8,
/// the pointer is a little-endian number, and the other fields are kept as
/// text.
pub open spec fn field_event(field: Field, data: Seq<u8>) -> Option<EventView> {
    match field {
        Field::ContentType => if valid_utf8(data) {
            Some(EventView::ContentType(decode_utf8(data)))
        } else {
            None
        },
        Field::Pointer => Some(EventView::Pointer(pointer_of(le_uint_spec(data)))),
        Field::Parent => Some(EventView::Parent(text_of(data))),
        Field::Metadata => Some(EventView::Metadata(text_of(data))),
        Field::MetaProtocol => Some(EventView::MetaProtocol(text_of(data))),
        Field::ContentEncoding => Some(EventView::ContentEncoding(text_of(data))),
    }
}

/// Reads a chunk of `n` content bytes that starts at `from`.
pub open spec fn chunk_step(bytes: Seq<u8>, from: int, n: int) -> Result<Step, DecodeError> {
    match run_at(bytes, from, n) {
        Some(chunk) => Ok(
            Step { state: State::Content, pos: from + n, event: EventView::Content(text_of(chunk)) },
        ),
        None => Err(DecodeError::MalformedEnvelope),
    }
}

/// Reads a push whose opcode stands at `pos` and whose length is written
/// in the next `width` bytes, little-endian.
pub open spec fn pushdata_step(bytes: Seq<u8>, pos: int, width: int) -> Result<Step, DecodeError> {
    match run_at(bytes, pos + 1, width) {
        Some(length) => chunk_step(bytes, pos + 1 + width, le_uint_spec(length) as int),
        None => Err(DecodeError::MalformedEnvelope),
    }
}

/// A step outside any envelope: two bytes are read, or the one that is
/// left, and an envelope opens if they are `OP_FALSE` and `OP_IF`.
pub open spec fn scanning_step(bytes: Seq<u8>, pos: int) -> Result<Step, DecodeError> {
    if pos + 2 <= bytes.len() {
        if bytes[pos] == OP_FALSE && bytes[pos + 1] == OP_IF {
            Ok(Step { state: State::Envelope, pos: pos + 2, event: EventView::Nothing })
        } else {
            Ok(Step { state: State::Scanning, pos: pos + 2, event: EventView::Nothing })
        }
    } else {
        Ok(Step { state: State::Scanning, pos: pos + 1, event: EventView::Nothing })
    }
}

/// A step at the start of an envelope: a length byte and as many bytes,
/// which name an inscription if they are the marker `ord`.
pub open spec fn envelope_step(bytes: Seq<u8>, pos: int) -> Result<Step, DecodeError> {
    match run_at(bytes, pos + 1, bytes[pos] as int) {
        Some(marker) => Ok(
            Step {
                state: if marker == ord_marker() {
                    State::Inscription
                } else {
                    State::NotInscription
                },
                pos: pos + 1 + bytes[pos],
                event: EventView::Nothing,
            },
        ),
        None => Err(DecodeError::MalformedEnvelope),
    }
}

/// A step inside an envelope that is no inscription: one byte is read, and
/// `OP_ENDIF` closes the envelope.
pub open spec fn not_inscription_step(bytes: Seq<u8>, pos: int) -> Result<Step, DecodeError> {
    Ok(
        Step {
            state: if bytes[pos] == OP_ENDIF {
                State::Scanning
            } else {
                State::NotInscription
            },
            pos: pos + 1,
            event: EventView::Nothing,
        },
    )
}

/// A step inside the header: `FIELD_PREFIX` and a tag announce a field,
/// `OP_FALSE` ends the header, and any other byte is passed over.
pub open spec fn header_step(bytes: Seq<u8>, pos: int) -> Result<Step, DecodeError> {
    if bytes[pos] == FIELD_PREFIX {
        if pos + 2 <= bytes.len() {
            match Field::of_code(bytes[pos + 1]) {
                Some(field) => Ok(
                    Step { state: State::Field(field), pos: pos + 2, event: EventView::Nothing },
                ),
                None => Err(DecodeError::UnknownFieldCode),
            }
        } else {
            Err(DecodeError::MalformedEnvelope)
        }
    } else if bytes[pos] == OP_FALSE {
        Ok(Step { state: State::Content, pos: pos + 1, event: EventView::Nothing })
    } else {
        Ok(Step { state: State::Inscription, pos: pos + 1, event: EventView::Nothing })
    }
}

/// A step at the value of a header field: a length byte and as many
/// bytes, which become the field's value.
pub open spec fn field_step(field: Field, bytes: Seq<u8>, pos: int) -> Result<Step, DecodeError> {
    match run_at(bytes, pos + 1, bytes[pos] as int) {
        Some(data) => match field_event(field, data) {
            Some(event) => Ok(Step { state: State::Inscription, pos: pos + 1 + bytes[pos], event }),
            None => Err(DecodeError::MalformedEnvelope),
        },
        None => Err(DecodeError::MalformedEnvelope),
    }
}

/// A step inside the content: `OP_ENDIF` closes the envelope, a push in
/// one of its four forms adds a chunk, and any other byte is passed over.
pub open spec fn content_step(bytes: Seq<u8>, pos: int, width: nat) -> Result<Step, DecodeError> {
    let byte = bytes[pos];
    if byte == OP_ENDIF {
        Ok(Step { state: State::Scanning, pos: pos + 1, event: EventView::Finished })
    } else if byte <= MAX_DIRECT_PUSH {
        chunk_step(bytes, pos + 1, byte as int)
    } else if byte == OP_PUSHDATA1 {
        pushdata_step(bytes, pos, 1)
    } else if byte == OP_PUSHDATA2 {
        pushdata_step(bytes, pos, 2)
    } else if byte == OP_PUSHDATA4 {
        pushdata_step(bytes, pos, width as int)
    } else {
        Ok(Step { state: State::Content, pos: pos + 1, event: EventView::Nothing })
    }
}

/// One step of the decoder from `state`, with the byte at `pos` the next
/// to read. `width` is the number of length bytes after `OP_PUSHDATA4`.
/// The step depends on the state and the bytes alone, not on what has been
/// found so far.
pub open spec fn step_spec(state: State, bytes: Seq<u8>, pos: int, width: nat) -> Result<
    Step,
    DecodeError,
>
    recommends
        0 <= pos < bytes.len(),
{
    match state {
        State::Scanning => scanning_step(bytes, pos),
        State::Envelope => envelope_step(bytes, pos),
        State::NotInscription => not_inscription_step(bytes, pos),
        State::Inscription => header_step(bytes, pos),
        State::Field(field) => field_step(field, bytes, pos),
        State::Content => content_step(bytes, pos, width),
    }
}

/// The outcome `got` of an executed step is the outcome `expected`.
pub open spec fn stepped_as(got: Result<(State, usize, Event), DecodeError>, expected: Result<
    Step,
    DecodeError,
>) -> bool {
    match (got, expected) {
        (Ok(reached), Ok(step)) => reached.0 == step.state && reached.1 == step.pos && reached.2@
            == step.event,
        (Err(e1), Err(e2)) => e1 == e2,
        _ => false,
    }
}

/// Every step reads at least one byte and never reads past the end, and
/// only a step that leaves the content for the outside of the envelope
/// completes an inscription.
pub proof fn lemma_step_advances(state: State, bytes: Seq<u8>, pos: int, width: nat)
    requires
        0 <= pos < bytes.len(),
    ensures
        match step_spec(state, bytes, pos, width) {
            Ok(step) => {
                &&& pos < step.pos <= bytes.len()
                &&& step.event == EventView::Finished <==> state == State::Content && step.state
                    == State::Scanning
            },
            Err(_) => true,
        },
{
}

impl State {
    /// Number of bytes that the decoder asks for at the start of a step.
    pub open spec fn spec_bytes_to_fetch(self) -> usize {
        match self {
            State::Scanning => 2,
            _ => 1,
        }
    }

    /// Number of bytes that the decoder asks for at the start of a step.
    pub fn bytes_to_fetch(&self) -> (n: usize)
        ensures
            n == self.spec_bytes_to_fetch(),
    {
        match self {
            State::Scanning => 2,
            State::Envelope => 1,
            State::Inscription => 1,
            State::NotInscription => 1,
            State::Field(_) => 1,
            State::Content => 1,
        }
    }

    /// Takes one step from this state with the byte at `pos` the next to
    /// read: returns the state entered, the position read up to, and what
    /// the step has read for the inscription.
    pub fn next_state(&self, bytes: &Vec<u8>, pos: usize, width: usize) -> (next: Result<
        (State, usize, Event),
        DecodeError,
    >)
        requires
            pos < bytes.len(),
        ensures
            stepped_as(next, step_spec(*self, bytes@, pos as int, width as nat)),
            next is Ok ==> pos < next->Ok_0.1 <= bytes.len(),
    {
        let byte: u8 = bytes[pos];
        match self {
            State::Scanning => {
                if bytes.len() - pos >= self.bytes_to_fetch() {
                    if byte == OP_FALSE && bytes[pos + 1] == OP_IF {
                        Ok((State::Envelope, pos + 2, Event::Nothing))
                    } else {
                        Ok((State::Scanning, pos + 2, Event::Nothing))
                    }
                } else {
                    Ok((State::Scanning, pos + 1, Event::Nothing))
                }
            },
            State::Envelope => read_marker(bytes, pos),
            State::NotInscription => {
                if byte == OP_ENDIF {
                    Ok((State::Scanning, pos + 1, Event::Nothing))
                } else {
                    Ok((State::NotInscription, pos + 1, Event::Nothing))
                }
            },
            State::Inscription => {
                if byte == FIELD_PREFIX {
                    if bytes.len() - pos >= 2 {
                        match Field::from_code(bytes[pos + 1]) {
                            Some(field) => Ok((State::Field(field), pos + 2, Event::Nothing)),
                            None => Err(DecodeError::UnknownFieldCode),
                        }
                    } else {
                        Err(DecodeError::MalformedEnvelope)
                    }
                } else if byte == OP_FALSE {
                    Ok((State::Content, pos + 1, Event::Nothing))
                } else {
                    Ok((State::Inscription, pos + 1, Event::Nothing))
                }
            },
            State::Field(field) => {
                match take_n(bytes, pos + 1, byte as usize) {
                    Some(data) => match read_field(*field, data) {
                        Some(event) => Ok((State::Inscription, pos + 1 + byte as usize, event)),
                        None => Err(DecodeError::MalformedEnvelope),
                    },
                    None => Err(DecodeError::MalformedEnvelope),
                }
            },
            State::Content => {
                if byte == OP_ENDIF {
                    Ok((State::Scanning, pos + 1, Event::Finished))
                } else if byte <= MAX_DIRECT_PUSH {
                    read_chunk(bytes, pos + 1, byte as u64)
                } else if byte == OP_PUSHDATA1 {
                    read_pushdata(bytes, pos, 1)
                } else if byte == OP_PUSHDATA2 {
                    read_pushdata(bytes, pos, 2)
                } else if byte == OP_PUSHDATA4 {
                    read_pushdata(bytes, pos, width)
                } else {
                    Ok((State::Content, pos + 1, Event::Nothing))
                }
            },
        }
    }
}

/// Reads the marker of the envelope whose length byte stands at `pos`.
pub fn read_marker(bytes: &Vec<u8>, pos: usize) -> (next: Result<
    (State, usize, Event),
    DecodeError,
>)
    requires
        pos < bytes.len(),
    ensures
        stepped_as(next, envelope_step(bytes@, pos as int)),
        next is Ok ==> pos < next->Ok_0.1 <= bytes.len(),
{
    let n: usize = bytes[pos] as usize;
    match take_n(bytes, pos + 1, n) {
        Some(marker) => {
            let is_ord = marker.len() == 3 && marker[0] == 0x6f && marker[1] == 0x72 && marker[2]
                == 0x64;
            proof {
                if is_ord {
                    assert(marker@ =~= ord_marker());
                }
            }
            if is_ord {
                Ok((State::Inscription, pos + 1 + n, Event::Nothing))
            } else {
                Ok((State::NotInscription, pos + 1 + n, Event::Nothing))
            }
        },
        None => Err(DecodeError::MalformedEnvelope),
    }
}

/// Reads the value of a header field. `None` where the value is not
/// acceptable for the field.
pub fn read_field(field: Field, data: Vec<u8>) -> (event: Option<Event>)
    ensures
        match field_event(field, data@) {
            Some(expected) => event is Some && event->0@ == expected,
            None => event is None,
        },
{
    match field {
        Field::ContentType => match string_from_utf8(&data) {
            Some(text) => Some(Event::ContentType(text)),
            None => None,
        },
        Field::Pointer => Some(Event::Pointer(pointer_from_u64(parse_little_endian_uint(data)))),
        Field::Parent => Some(Event::Parent(utf8_or_hex(&data))),
        Field::Metadata => Some(Event::Metadata(utf8_or_hex(&data))),
        Field::MetaProtocol => Some(Event::MetaProtocol(utf8_or_hex(&data))),
        Field::ContentEncoding => Some(Event::ContentEncoding(utf8_or_hex(&data))),
    }
}

/// Reads a chunk of `n` content bytes that starts at `from`.
pub fn read_chunk(bytes: &Vec<u8>, from: usize, n: u64) -> (next: Result<
    (State, usize, Event),
    DecodeError,
>)
    requires
        from <= bytes.len(),
    ensures
        stepped_as(next, chunk_step(bytes@, from as int, n as int)),
        next is Ok ==> from <= next->Ok_0.1 <= bytes.len(),
{
    if n > (bytes.len() - from) as u64 {
        return Err(DecodeError::MalformedEnvelope);
    }
    let count: usize = n as usize;
    match take_n(bytes, from, count) {
        Some(chunk) => Ok((State::Content, from + count, Event::Content(utf8_or_hex(&chunk)))),
        None => Err(DecodeError::MalformedEnvelope),
    }
}

/// Reads a push whose opcode stands at `pos` and whose length is written
/// in the next `width` bytes.
pub fn read_pushdata(bytes: &Vec<u8>, pos: usize, width: usize) -> (next: Result<
    (State, usize, Event),
    DecodeError,
>)
    requires
        pos < bytes.len(),
    ensures
        stepped_as(next, pushdata_step(bytes@, pos as int, width as int)),
        next is Ok ==> pos < next->Ok_0.1 <= bytes.len(),
{
    match take_n(bytes, pos + 1, width) {
        Some(length) => read_chunk(bytes, pos + 1 + width, parse_little_endian_uint(length)),
        None => Err(DecodeError::MalformedEnvelope),
    }
}

/// Identifier of the inscription at `index` within its transaction: the
/// transaction's identifier, the letter `i`, and the index in decimal.
pub open spec fn inscription_id_spec(txid: Seq<char>, index: nat) -> Seq<char> {
    txid + seq!['i'] + decimal_digits(index)
}

/// Builds the identifier of the inscription at `index` within the
/// transaction `txid`.
pub fn inscription_id(txid: &String, index: usize) -> (id: String)
    ensures
        id@ == inscription_id_spec(txid@, index as nat),
{
    let number = decimal_string(index);
    proof {
        reveal_strlit("i");
        assert("i"@ =~= seq!['i']);
    }
    txid.clone().concat("i").concat(number.as_str())
}

/// What the decoder returns when the input ends in `state`: the
/// inscriptions found, unless the input ends inside one.
pub open spec fn finish_spec(state: State, done: Seq<InscriptionView>) -> Result<
    Seq<InscriptionView>,
    DecodeError,
> {
    if state == State::Scanning || state == State::NotInscription {
        Ok(done)
    } else {
        Err(DecodeError::IncompleteParse)
    }
}

/// The run of the decoder from `pos` on, in `state`, with `draft` under
/// construction and `done` already found. Each step's event is applied to
/// the draft; the event that completes the inscription moves the draft to
/// `done`, and an empty draft with the next index takes its place.
pub open spec fn run_spec(
    txid: Seq<char>,
    bytes: Seq<u8>,
    width: nat,
    pos: int,
    state: State,
    draft: InscriptionView,
    done: Seq<InscriptionView>,
) -> Result<Seq<InscriptionView>, DecodeError>
    decreases bytes.len() - pos,
{
    if pos < 0 || pos >= bytes.len() {
        finish_spec(state, done)
    } else {
        match step_spec(state, bytes, pos, width) {
            Err(error) => Err(error),
            Ok(step) => if step.event == EventView::Finished {
                run_spec(
                    txid,
                    bytes,
                    width,
                    step.pos,
                    step.state,
                    InscriptionView::empty(inscription_id_spec(txid, done.len() + 1)),
                    done.push(draft),
                )
            } else {
                run_spec(
                    txid,
                    bytes,
                    width,
                    step.pos,
                    step.state,
                    apply_spec(draft, step.event),
                    done,
                )
            },
        }
    }
}

/// The inscriptions in the script `bytes` of the transaction `txid`, or
/// the error that decoding ends with.
pub open spec fn decode_spec(txid: Seq<char>, bytes: Seq<u8>, width: nat) -> Result<
    Seq<InscriptionView>,
    DecodeError,
> {
    run_spec(
        txid,
        bytes,
        width,
        0,
        State::Scanning,
        InscriptionView::empty(inscription_id_spec(txid, 0)),
        Seq::empty(),
    )
}

/// The outcome `got` is the outcome `expected`, inscription by
/// inscription, or the same error.
pub open spec fn decoded_as(
    got: Result<Vec<Inscription>, DecodeError>,
    expected: Result<Seq<InscriptionView>, DecodeError>,
) -> bool {
    match (got, expected) {
        (Ok(records), Ok(views)) => inscription_views(records@) == views,
        (Err(e1), Err(e2)) => e1 == e2,
        _ => false,
    }
}

/// Decodes the inscriptions in the script `bytes` of the transaction
/// `txid`, reading `pushdata4_width` bytes of length after `OP_PUSHDATA4`.
pub fn parse_inscriptions_with_width(txid: String, bytes: Vec<u8>, pushdata4_width: usize) -> (res:
    Result<Vec<Inscription>, DecodeError>)
    ensures
        decoded_as(res, decode_spec(txid@, bytes@, pushdata4_width as nat)),
{
    let mut state = State::Scanning;
    let mut inscriptions: Vec<Inscription> = Vec::new();
    let mut builder = InscriptionBuilder::new(inscription_id(&txid, 0));
    let mut pos: usize = 0;
    proof {
        assert(inscription_views(inscriptions@) =~= Seq::empty());
    }
    while pos < bytes.len()
        invariant
            pos <= bytes.len(),
            decode_spec(txid@, bytes@, pushdata4_width as nat) == run_spec(
                txid@,
                bytes@,
                pushdata4_width as nat,
                pos as int,
                state,
                builder@,
                inscription_views(inscriptions@),
            ),
        decreases bytes.len() - pos,
    {
        let ghost before = inscription_views(inscriptions@);
        match state.next_state(&bytes, pos, pushdata4_width) {
            Err(error) => {
                return Err(error);
            },
            Ok((new_state, new_pos, event)) => {
                match event {
                    Event::Finished => {
                        let finished = builder;
                        inscriptions.push(finished.build());
                        builder =
                        InscriptionBuilder::new(inscription_id(&txid, inscriptions.len()));
                        proof {
                            assert(inscription_views(inscriptions@) =~= before.push(finished@));
                        }
                    },
                    recorded => {
                        builder.apply(recorded);
                    },
                }
                state = new_state;
                pos = new_pos;
            },
        }
    }
    match state {
        State::Scanning | State::NotInscription => Ok(inscriptions),
        _ => Err(DecodeError::IncompleteParse),
    }
}

/// Decodes the inscriptions in the script `bytes` of the transaction
/// `txid`, with `PUSHDATA4_LENGTH_BYTES` bytes of length after
/// `OP_PUSHDATA4`.
pub fn parse_inscriptions(txid: String, bytes: Vec<u8>) -> (res: Result<
    Vec<Inscription>,
    DecodeError,
>)
    ensures
        decoded_as(res, decode_spec(txid@, bytes@, PUSHDATA4_LENGTH_BYTES as nat)),
{
    parse_inscriptions_with_width(txid, bytes, PUSHDATA4_LENGTH_BYTES)
}

/// Decoding depends on nothing but its input: two outcomes of decoding the
/// same script of the same transaction succeed or fail together, hold the
/// same inscriptions in the same order, or are the same error.
pub proof fn lemma_decoding_is_deterministic(
    first: Result<Vec<Inscription>, DecodeError>,
    second: Result<Vec<Inscription>, DecodeError>,
    txid: Seq<char>,
    bytes: Seq<u8>,
    width: nat,
)
    requires
        decoded_as(first, decode_spec(txid, bytes, width)),
        decoded_as(second, decode_spec(txid, bytes, width)),
    ensures
        first is Ok <==> second is Ok,
        first is Ok ==> inscription_views(first->Ok_0@) == inscription_views(second->Ok_0@),
        first is Err ==> first->Err_0 == second->Err_0,
{
}

/// A header field with a tag that the protocol does not define fails the
/// decoding of the script, whatever was found before and whatever
/// follows.
pub proof fn lemma_unknown_tag_fails(
    txid: Seq<char>,
    bytes: Seq<u8>,
    width: nat,
    pos: int,
    draft: InscriptionView,
    done: Seq<InscriptionView>,
)
    requires
        0 <= pos,
        pos + 1 < bytes.len(),
        bytes[pos] == FIELD_PREFIX,
        Field::of_code(bytes[pos + 1]) is None,
    ensures
        run_spec(txid, bytes, width, pos, State::Inscription, draft, done) == Err::<
            Seq<InscriptionView>,
            DecodeError,
        >(DecodeError::UnknownFieldCode),
{
}

/// An envelope whose marker is present but is not `ord` is no inscription:
/// the decoder goes on behind the marker in `State::NotInscription`, with
/// nothing added to what it has found.
pub proof fn lemma_other_marker_is_no_inscription(
    txid: Seq<char>,
    bytes: Seq<u8>,
    width: nat,
    pos: int,
    draft: InscriptionView,
    done: Seq<InscriptionView>,
)
    requires
        0 <= pos < bytes.len(),
        pos + 1 + bytes[pos] <= bytes.len(),
        bytes.subrange(pos + 1, pos + 1 + bytes[pos]) != ord_marker(),
    ensures
        run_spec(txid, bytes, width, pos, State::Envelope, draft, done) == run_spec(
            txid,
            bytes,
            width,
            pos + 1 + bytes[pos],
            State::NotInscription,
            draft,
            done,
        ),
{
}

/// Inside an envelope that is no inscription the decoder reads up to the
/// first `OP_ENDIF` and goes on scanning behind it, with nothing added to
/// what it has found and no error.
pub proof fn lemma_not_inscription_is_skipped(
    txid: Seq<char>,
    bytes: Seq<u8>,
    width: nat,
    pos: int,
    end: int,
    draft: InscriptionView,
    done: Seq<InscriptionView>,
)
    requires
        0 <= pos <= end < bytes.len(),
        forall|k: int| pos <= k < end ==> bytes[k] != OP_ENDIF,
        bytes[end] == OP_ENDIF,
    ensures
        run_spec(txid, bytes, width, pos, State::NotInscription, draft, done) == run_spec(
            txid,
            bytes,
            width,
            end + 1,
            State::Scanning,
            draft,
            done,
        ),
    decreases end - pos,
{
    if pos < end {
        lemma_not_inscription_is_skipped(txid, bytes, width, pos + 1, end, draft, done);
    }
}

/// An envelope that is no inscription and never closes takes the rest of
/// the script: decoding ends without error with what was found before.
pub proof fn lemma_not_inscription_may_stay_open(
    txid: Seq<char>,
    bytes: Seq<u8>,
    width: nat,
    pos: int,
    draft: InscriptionView,
    done: Seq<InscriptionView>,
)
    requires
        0 <= pos <= bytes.len(),
        forall|k: int| pos <= k < bytes.len() ==> bytes[k] != OP_ENDIF,
    ensures
        run_spec(txid, bytes, width, pos, State::NotInscription, draft, done) == Ok::<
            Seq<InscriptionView>,
            DecodeError,
        >(done),
    decreases bytes.len() - pos,
{
    if pos < bytes.len() {
        lemma_not_inscription_may_stay_open(txid, bytes, width, pos + 1, draft, done);
    }
}

/// While scanning, the decoder reads two bytes at a time. Where none of
/// the pairs it reads from `pos` on opens an envelope, it finds nothing
/// more and ends without error.
pub proof fn lemma_scanning_without_opening(
    txid: Seq<char>,
    bytes: Seq<u8>,
    width: nat,
    pos: int,
    draft: InscriptionView,
    done: Seq<InscriptionView>,
)
    requires
        0 <= pos <= bytes.len(),
        forall|k: int|
            pos <= k && k + 1 < bytes.len() && (k - pos) % 2 == 0 ==> !(bytes[k] == OP_FALSE
                && #[trigger] bytes[k + 1] == OP_IF),
    ensures
        run_spec(txid, bytes, width, pos, State::Scanning, draft, done) == Ok::<
            Seq<InscriptionView>,
            DecodeError,
        >(done),
    decreases bytes.len() - pos,
{
    if pos + 2 <= bytes.len() {
        assert(!(bytes[pos] == OP_FALSE && bytes[pos + 1] == OP_IF));
        assert forall|k: int|
            pos + 2 <= k && k + 1 < bytes.len() && (k - (pos + 2)) % 2 == 0 implies !(bytes[k]
                == OP_FALSE && #[trigger] bytes[k + 1] == OP_IF) by {
            assert((k - pos) % 2 == 0);
        }
        lemma_scanning_without_opening(txid, bytes, width, pos + 2, draft, done);
    } else if pos < bytes.len() {
        lemma_scanning_without_opening(txid, bytes, width, pos + 1, draft, done);
    }
}

/// A script that is one envelope with a marker other than `ord`, closed
/// by the first `OP_ENDIF` behind the marker, holds no inscription and
/// decodes without error.
pub proof fn lemma_foreign_envelope_yields_nothing(txid: Seq<char>, script: Seq<u8>, width: nat)
    requires
        script.len() >= 4,
        script[0] == OP_FALSE,
        script[1] == OP_IF,
        3 + script[2] < script.len(),
        script.subrange(3, 3 + script[2]) != ord_marker(),
        forall|k: int| 3 + script[2] <= k < script.len() - 1 ==> script[k] != OP_ENDIF,
        script[script.len() - 1] == OP_ENDIF,
    ensures
        decode_spec(txid, script, width) == Ok::<Seq<InscriptionView>, DecodeError>(Seq::empty()),
{
    let draft = InscriptionView::empty(inscription_id_spec(txid, 0));
    let done = Seq::<InscriptionView>::empty();
    let behind = 3 + script[2];
    let end = script.len() - 1;
    assert(run_spec(txid, script, width, 0, State::Scanning, draft, done) == run_spec(
        txid,
        script,
        width,
        2,
        State::Envelope,
        draft,
        done,
    ));
    lemma_other_marker_is_no_inscription(txid, script, width, 2, draft, done);
    lemma_not_inscription_is_skipped(txid, script, width, behind, end, draft, done);
    assert(run_spec(txid, script, width, end + 1, State::Scanning, draft, done) == Ok::<
        Seq<InscriptionView>,
        DecodeError,
    >(done));
}

/// A script that opens an inscription and then announces a header field
/// with a tag that the protocol does not define fails with
/// `UnknownFieldCode`, whatever follows.
pub proof fn lemma_unknown_tag_fails_the_script(txid: Seq<char>, script: Seq<u8>, width: nat)
    requires
        script.len() >= 8,
        script[0] == OP_FALSE,
        script[1] == OP_IF,
        script[2] == 3,
        script.subrange(3, 6) == ord_marker(),
        script[6] == FIELD_PREFIX,
        Field::of_code(script[7]) is None,
    ensures
        decode_spec(txid, script, width) == Err::<Seq<InscriptionView>, DecodeError>(
            DecodeError::UnknownFieldCode,
        ),
{
    let draft = InscriptionView::empty(inscription_id_spec(txid, 0));
    let done = Seq::<InscriptionView>::empty();
    assert(run_spec(txid, script, width, 0, State::Scanning, draft, done) == run_spec(
        txid,
        script,
        width,
        2,
        State::Envelope,
        draft,
        done,
    ));
    assert(run_spec(txid, script, width, 2, State::Envelope, draft, done) == run_spec(
        txid,
        script,
        width,
        6,
        State::Inscription,
        draft,
        done,
    ));
    lemma_unknown_tag_fails(txid, script, width, 6, draft, done);
}

} // verus!
