//! The shape of an inscription envelope, and the proof that the decoder
//! reads back what an envelope of that shape carries.

use crate::inscriptions::{
    apply_spec, decode_spec, field_event, inscription_id_spec, lemma_field_codes_one_to_one,
    ord_marker, run_spec, DecodeError, EventView, Field, State, FIELD_PREFIX, MAX_DIRECT_PUSH,
    OP_ENDIF, OP_FALSE, OP_IF,
};
use crate::pb::InscriptionView;
use vstd::prelude::*;

verus! {

/// A header field with the bytes of its value.
pub ghost struct HeaderField {
    pub field: Field,
    pub data: Seq<u8>,
}

/// A header field as it stands in a script: the prefix, the tag, the
/// length of the value in one byte, and the value.
pub open spec fn field_bytes(entry: HeaderField) -> Seq<u8> {
    seq![FIELD_PREFIX, entry.field.spec_code(), entry.data.len() as u8] + entry.data
}

/// The header fields of an envelope, one after another.
pub open spec fn header_bytes(fields: Seq<HeaderField>) -> Seq<u8>
    decreases fields.len(),
{
    if fields.len() == 0 {
        Seq::empty()
    } else {
        field_bytes(fields[0]) + header_bytes(fields.drop_first())
    }
}

/// A chunk of content as a direct push: its length in one byte, and the
/// chunk.
pub open spec fn push_bytes(chunk: Seq<u8>) -> Seq<u8> {
    seq![chunk.len() as u8] + chunk
}

/// The content of an envelope: its chunks, each as a direct push.
pub open spec fn content_bytes(chunks: Seq<Seq<u8>>) -> Seq<u8>
    decreases chunks.len(),
{
    if chunks.len() == 0 {
        Seq::empty()
    } else {
        push_bytes(chunks[0]) + content_bytes(chunks.drop_first())
    }
}

/// The opening of an inscription envelope: `OP_FALSE`, `OP_IF`, and the
/// pushed marker `ord`.
pub open spec fn opening_bytes() -> Seq<u8> {
    seq![OP_FALSE, OP_IF, 3u8] + ord_marker()
}

/// An inscription envelope with the given header fields and content
/// chunks.
pub open spec fn envelope_bytes(fields: Seq<HeaderField>, chunks: Seq<Seq<u8>>) -> Seq<u8> {
    opening_bytes() + header_bytes(fields) + seq![OP_FALSE] + content_bytes(chunks) + seq![
        OP_ENDIF,
    ]
}

/// Each field's value fits a one-byte length and is acceptable for the
/// field, and each chunk fits a direct push.
pub open spec fn fits_envelope(fields: Seq<HeaderField>, chunks: Seq<Seq<u8>>) -> bool {
    &&& forall|i: int|
        0 <= i < fields.len() ==> (#[trigger] fields[i]).data.len() <= 255 && field_event(
            fields[i].field,
            fields[i].data,
        ) is Some
    &&& forall|j: int| 0 <= j < chunks.len() ==> (#[trigger] chunks[j]).len() <= MAX_DIRECT_PUSH
}

/// The inscription after the header fields were given their values, in
/// order.
pub open spec fn with_fields(draft: InscriptionView, fields: Seq<HeaderField>) -> InscriptionView
    decreases fields.len(),
{
    if fields.len() == 0 {
        draft
    } else {
        match field_event(fields[0].field, fields[0].data) {
            Some(event) => with_fields(apply_spec(draft, event), fields.drop_first()),
            None => draft,
        }
    }
}

/// The inscription after the text of each chunk was appended to its
/// content, in order.
pub open spec fn with_chunks(draft: InscriptionView, chunks: Seq<Seq<u8>>) -> InscriptionView
    decreases chunks.len(),
{
    if chunks.len() == 0 {
        draft
    } else {
        with_chunks(
            apply_spec(draft, EventView::Content(crate::codec::text_of(chunks[0]))),
            chunks.drop_first(),
        )
    }
}

/// Where the bytes from `pos` on are `first` followed by `rest`, the bytes
/// of `first` stand at `pos`, and `rest` stands behind them.
pub proof fn lemma_split_at(bytes: Seq<u8>, pos: int, first: Seq<u8>, rest: Seq<u8>)
    requires
        0 <= pos <= bytes.len(),
        bytes.skip(pos) == first + rest,
    ensures
        pos + first.len() + rest.len() == bytes.len(),
        forall|k: int| 0 <= k < first.len() ==> bytes[pos + k] == first[k],
        forall|k: int| 0 <= k < rest.len() ==> bytes[pos + first.len() + k] == rest[k],
        bytes.subrange(pos, pos + first.len()) == first,
        bytes.skip(pos + first.len()) == rest,
{
    assert(bytes.skip(pos).len() == first.len() + rest.len());
    let joined = first + rest;
    assert forall|k: int| 0 <= k < first.len() implies bytes[pos + k] == first[k] by {
        assert(bytes.skip(pos)[k] == bytes[pos + k]);
        assert(joined[k] == first[k]);
    }
    assert forall|k: int| 0 <= k < rest.len() implies bytes[pos + first.len() + k] == rest[k] by {
        let at = first.len() + k;
        assert(bytes.skip(pos)[at] == bytes[pos + at]);
        assert(joined[at] == rest[at - first.len()]);
    }
    assert(bytes.subrange(pos, pos + first.len()) =~= first);
    assert(bytes.skip(pos + first.len()) =~= rest);
}

/// From inside the header, the decoder reads a run of header fields and
/// stands behind them, still in the header, with each field set.
pub proof fn lemma_header_is_read(
    txid: Seq<char>,
    bytes: Seq<u8>,
    width: nat,
    pos: int,
    fields: Seq<HeaderField>,
    rest: Seq<u8>,
    draft: InscriptionView,
    done: Seq<InscriptionView>,
)
    requires
        0 <= pos <= bytes.len(),
        bytes.skip(pos) == header_bytes(fields) + rest,
        fits_envelope(fields, Seq::empty()),
    ensures
        run_spec(txid, bytes, width, pos, State::Inscription, draft, done) == run_spec(
            txid,
            bytes,
            width,
            pos + header_bytes(fields).len(),
            State::Inscription,
            with_fields(draft, fields),
            done,
        ),
    decreases fields.len(),
{
    if fields.len() > 0 {
        let entry = fields[0];
        let others = fields.drop_first();
        let event = field_event(entry.field, entry.data)->0;
        let n = entry.data.len() as int;
        assert(header_bytes(fields) + rest =~= field_bytes(entry) + (header_bytes(others) + rest));
        lemma_split_at(bytes, pos, field_bytes(entry), header_bytes(others) + rest);
        lemma_field_codes_one_to_one(entry.field, 0);
        assert(bytes[pos] == field_bytes(entry)[0]);
        assert(bytes[pos + 1] == field_bytes(entry)[1]);
        assert(bytes[pos + 2] == field_bytes(entry)[2]);
        assert(bytes.subrange(pos + 3, pos + 3 + n) =~= entry.data) by {
            assert forall|k: int| 0 <= k < n implies bytes[pos + 3 + k] == entry.data[k] by {
                assert(field_bytes(entry)[3 + k] == entry.data[k]);
            }
        }
        assert(run_spec(txid, bytes, width, pos, State::Inscription, draft, done) == run_spec(
            txid,
            bytes,
            width,
            pos + 2,
            State::Field(entry.field),
            draft,
            done,
        ));
        assert(run_spec(txid, bytes, width, pos + 2, State::Field(entry.field), draft, done)
            == run_spec(
            txid,
            bytes,
            width,
            pos + 3 + n,
            State::Inscription,
            apply_spec(draft, event),
            done,
        ));
        assert forall|i: int| 0 <= i < others.len() implies (#[trigger] others[i]).data.len()
            <= 255 && field_event(others[i].field, others[i].data) is Some by {
            assert(others[i] == fields[i + 1]);
        }
        lemma_header_is_read(
            txid,
            bytes,
            width,
            pos + 3 + n,
            others,
            rest,
            apply_spec(draft, event),
            done,
        );
    }
}

/// From inside the content, the decoder reads a run of direct pushes and
/// stands behind them, still in the content, with the text of each chunk
/// appended.
pub proof fn lemma_content_is_read(
    txid: Seq<char>,
    bytes: Seq<u8>,
    width: nat,
    pos: int,
    chunks: Seq<Seq<u8>>,
    rest: Seq<u8>,
    draft: InscriptionView,
    done: Seq<InscriptionView>,
)
    requires
        0 <= pos <= bytes.len(),
        bytes.skip(pos) == content_bytes(chunks) + rest,
        fits_envelope(Seq::empty(), chunks),
    ensures
        run_spec(txid, bytes, width, pos, State::Content, draft, done) == run_spec(
            txid,
            bytes,
            width,
            pos + content_bytes(chunks).len(),
            State::Content,
            with_chunks(draft, chunks),
            done,
        ),
    decreases chunks.len(),
{
    if chunks.len() > 0 {
        let chunk = chunks[0];
        let others = chunks.drop_first();
        let n = chunk.len() as int;
        let event = EventView::Content(crate::codec::text_of(chunk));
        assert(content_bytes(chunks) + rest =~= push_bytes(chunk) + (content_bytes(others)
            + rest));
        lemma_split_at(bytes, pos, push_bytes(chunk), content_bytes(others) + rest);
        assert(bytes[pos] == push_bytes(chunk)[0]);
        assert(bytes.subrange(pos + 1, pos + 1 + n) =~= chunk) by {
            assert forall|k: int| 0 <= k < n implies bytes[pos + 1 + k] == chunk[k] by {
                assert(push_bytes(chunk)[1 + k] == chunk[k]);
            }
        }
        assert(run_spec(txid, bytes, width, pos, State::Content, draft, done) == run_spec(
            txid,
            bytes,
            width,
            pos + 1 + n,
            State::Content,
            apply_spec(draft, event),
            done,
        ));
        assert forall|j: int| 0 <= j < others.len() implies (#[trigger] others[j]).len()
            <= MAX_DIRECT_PUSH by {
            assert(others[j] == chunks[j + 1]);
        }
        lemma_content_is_read(
            txid,
            bytes,
            width,
            pos + 1 + n,
            others,
            rest,
            apply_spec(draft, event),
            done,
        );
    }
}

/// A script that is one inscription envelope decodes to exactly one
/// inscription: it has the first identifier of the transaction, each
/// header field as the envelope gives it, and the text of the chunks in
/// order as its content.
pub proof fn lemma_envelope_decodes(
    txid: Seq<char>,
    fields: Seq<HeaderField>,
    chunks: Seq<Seq<u8>>,
    width: nat,
)
    requires
        fits_envelope(fields, chunks),
    ensures
        decode_spec(txid, envelope_bytes(fields, chunks), width) == Ok::<
            Seq<InscriptionView>,
            DecodeError,
        >(
            seq![
                with_chunks(
                    with_fields(InscriptionView::empty(inscription_id_spec(txid, 0)), fields),
                    chunks,
                ),
            ],
        ),
{
    let bytes = envelope_bytes(fields, chunks);
    let draft = InscriptionView::empty(inscription_id_spec(txid, 0));
    let done = Seq::<InscriptionView>::empty();
    let header = header_bytes(fields);
    let content = content_bytes(chunks);
    let after_header = seq![OP_FALSE] + content + seq![OP_ENDIF];
    let after_content = seq![OP_ENDIF];
    let filled = with_fields(draft, fields);
    let complete = with_chunks(filled, chunks);
    assert(bytes.skip(0) =~= opening_bytes() + (header + after_header));
    lemma_split_at(bytes, 0, opening_bytes(), header + after_header);
    assert(bytes[0] == opening_bytes()[0]);
    assert(bytes[1] == opening_bytes()[1]);
    assert(bytes[2] == opening_bytes()[2]);
    assert(bytes.subrange(3, 6) =~= ord_marker()) by {
        assert forall|k: int| 0 <= k < 3 implies bytes[3 + k] == ord_marker()[k] by {
            assert(opening_bytes()[3 + k] == ord_marker()[k]);
        }
    }
    assert(run_spec(txid, bytes, width, 0, State::Scanning, draft, done) == run_spec(
        txid,
        bytes,
        width,
        2,
        State::Envelope,
        draft,
        done,
    ));
    assert(run_spec(txid, bytes, width, 2, State::Envelope, draft, done) == run_spec(
        txid,
        bytes,
        width,
        6,
        State::Inscription,
        draft,
        done,
    ));
    assert(fits_envelope(fields, Seq::empty()));
    lemma_header_is_read(txid, bytes, width, 6, fields, after_header, draft, done);
    let at_end_of_header: int = 6 + header.len() as int;
    lemma_split_at(bytes, 6, header, after_header);
    assert(after_header =~= seq![OP_FALSE] + (content + after_content));
    lemma_split_at(bytes, at_end_of_header, seq![OP_FALSE], content + after_content);
    assert(bytes[at_end_of_header] == seq![OP_FALSE][0]);
    assert(run_spec(txid, bytes, width, at_end_of_header, State::Inscription, filled, done)
        == run_spec(txid, bytes, width, at_end_of_header + 1, State::Content, filled, done));
    assert(fits_envelope(Seq::empty(), chunks));
    lemma_content_is_read(
        txid,
        bytes,
        width,
        at_end_of_header + 1,
        chunks,
        after_content,
        filled,
        done,
    );
    let at_end_of_content: int = at_end_of_header + 1 + content.len() as int;
    lemma_split_at(bytes, at_end_of_header + 1, content, after_content);
    assert(bytes[at_end_of_content] == after_content[0]);
    assert(at_end_of_content + 1 == bytes.len());
    assert(run_spec(txid, bytes, width, at_end_of_content, State::Content, complete, done)
        == run_spec(
        txid,
        bytes,
        width,
        at_end_of_content + 1,
        State::Scanning,
        InscriptionView::empty(inscription_id_spec(txid, 1)),
        done.push(complete),
    ));
    assert(done.push(complete) =~= seq![complete]);
}

} // verus!
