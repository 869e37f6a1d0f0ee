//! The binary form in which a record is staged, and the proof that
//! reading gives back what was written.
//!
//! All numbers are eight bytes, least significant first. A text is the
//! length of its UTF-8 form followed by that form. A list is its length
//! followed by its items. A record is its four identifiers, its start,
//! its stop (one byte that says whether there is one, then the time), and
//! the list of its components; a component is its name, its amount and
//! the list of its scores; a score is its name and its factor.

use crate::domain::{
    component_views, score_views, valid_component, valid_factor, valid_score, Component,
    ComponentView, Score, ScoreView,
};
use crate::names::{is_valid_name, lemma_clean_is_fixed, valid_name};
use crate::record::{valid_record, Record, RecordView};
use crate::time::{in_range, Timestamp};
use vstd::bytes::{
    lemma_auto_spec_u64_to_from_le_bytes, spec_u64_from_le_bytes, spec_u64_to_le_bytes,
    u64_from_le_bytes, u64_to_le_bytes,
};
use vstd::prelude::*;
use vstd::slice::{slice_subrange, slice_to_vec};
use vstd::utf8::{
    decode_utf8, encode_scalar, encode_utf8, encode_utf8_decode_utf8, encode_utf8_valid_utf8,
    valid_utf8,
};

verus! {

/// The bytes of a number.
pub open spec fn put_u64(x: u64) -> Seq<u8> {
    spec_u64_to_le_bytes(x)
}

/// The number at the start of `b`, and what follows it.
pub open spec fn take_u64(b: Seq<u8>) -> Option<(u64, Seq<u8>)> {
    if b.len() >= 8 {
        Some((spec_u64_from_le_bytes(b.take(8)), b.skip(8)))
    } else {
        None
    }
}

/// The bytes of a text.
pub open spec fn put_text(s: Seq<char>) -> Seq<u8> {
    put_u64(encode_utf8(s).len() as u64) + encode_utf8(s)
}

/// The text at the start of `b`, and what follows it.
pub open spec fn take_text(b: Seq<u8>) -> Option<(Seq<char>, Seq<u8>)> {
    match take_u64(b) {
        None => None,
        Some((n, rest)) => if n <= rest.len() && valid_utf8(rest.take(n as int)) {
            Some((decode_utf8(rest.take(n as int)), rest.skip(n as int)))
        } else {
            None
        },
    }
}

/// The valid name at the start of `b`, and what follows it.
pub open spec fn take_name(b: Seq<u8>) -> Option<(Seq<char>, Seq<u8>)> {
    match take_text(b) {
        None => None,
        Some((s, rest)) => if valid_name(s) {
            Some((s, rest))
        } else {
            None
        },
    }
}

/// The bytes of a point in time: its seconds in two's complement.
pub open spec fn put_time(t: int) -> Seq<u8> {
    put_u64((t as i64) as u64)
}

/// The point in time at the start of `b`, and what follows it.
pub open spec fn take_time(b: Seq<u8>) -> Option<(int, Seq<u8>)> {
    match take_u64(b) {
        None => None,
        Some((x, rest)) => if in_range((x as i64) as int) {
            Some(((x as i64) as int, rest))
        } else {
            None
        },
    }
}

/// The bytes of an optional point in time.
pub open spec fn put_stop(stop: Option<int>) -> Seq<u8> {
    match stop {
        None => seq![0u8],
        Some(t) => seq![1u8] + put_time(t),
    }
}

/// The optional point in time at the start of `b`, and what follows it.
pub open spec fn take_stop(b: Seq<u8>) -> Option<(Option<int>, Seq<u8>)> {
    if b.len() == 0 {
        None
    } else if b[0] == 0 {
        Some((None, b.skip(1)))
    } else if b[0] == 1 {
        match take_time(b.skip(1)) {
            None => None,
            Some((t, rest)) => Some((Some(t), rest)),
        }
    } else {
        None
    }
}

/// The bytes of a score.
pub open spec fn put_score(score: ScoreView) -> Seq<u8> {
    put_text(score.name) + put_u64(score.factor_bits)
}

/// The valid score at the start of `b`, and what follows it.
pub open spec fn take_score(b: Seq<u8>) -> Option<(ScoreView, Seq<u8>)> {
    match take_name(b) {
        None => None,
        Some((name, rest)) => match take_u64(rest) {
            None => None,
            Some((factor_bits, rest)) => if valid_factor(factor_bits) {
                Some((ScoreView { name, factor_bits }, rest))
            } else {
                None
            },
        },
    }
}

/// The bytes of some scores, one after the other.
pub open spec fn put_score_items(items: Seq<ScoreView>) -> Seq<u8>
    decreases items.len(),
{
    if items.len() == 0 {
        Seq::empty()
    } else {
        put_score_items(items.drop_last()) + put_score(items.last())
    }
}

/// The next `n` scores at the start of `b`, added to `got`, and what
/// follows them.
pub open spec fn take_score_items(b: Seq<u8>, n: nat, got: Seq<ScoreView>) -> Option<
    (Seq<ScoreView>, Seq<u8>),
>
    decreases n,
{
    if n == 0 {
        Some((got, b))
    } else {
        match take_score(b) {
            None => None,
            Some((item, rest)) => take_score_items(rest, (n - 1) as nat, got.push(item)),
        }
    }
}

/// The bytes of a list of scores.
pub open spec fn put_scores(items: Seq<ScoreView>) -> Seq<u8> {
    put_u64(items.len() as u64) + put_score_items(items)
}

/// The list of scores at the start of `b`, and what follows it.
pub open spec fn take_scores(b: Seq<u8>) -> Option<(Seq<ScoreView>, Seq<u8>)> {
    match take_u64(b) {
        None => None,
        Some((n, rest)) => take_score_items(rest, n as nat, Seq::empty()),
    }
}

/// The bytes of a component.
pub open spec fn put_component(component: ComponentView) -> Seq<u8> {
    put_text(component.name) + put_u64(component.amount) + put_scores(component.scores)
}

/// The valid component at the start of `b`, and what follows it.
pub open spec fn take_component(b: Seq<u8>) -> Option<(ComponentView, Seq<u8>)> {
    match take_name(b) {
        None => None,
        Some((name, rest)) => match take_u64(rest) {
            None => None,
            Some((amount, rest)) => match take_scores(rest) {
                None => None,
                Some((scores, rest)) => Some((ComponentView { name, amount, scores }, rest)),
            },
        },
    }
}

/// The bytes of some components, one after the other.
pub open spec fn put_component_items(items: Seq<ComponentView>) -> Seq<u8>
    decreases items.len(),
{
    if items.len() == 0 {
        Seq::empty()
    } else {
        put_component_items(items.drop_last()) + put_component(items.last())
    }
}

/// The next `n` components at the start of `b`, added to `got`, and what
/// follows them.
pub open spec fn take_component_items(b: Seq<u8>, n: nat, got: Seq<ComponentView>) -> Option<
    (Seq<ComponentView>, Seq<u8>),
>
    decreases n,
{
    if n == 0 {
        Some((got, b))
    } else {
        match take_component(b) {
            None => None,
            Some((item, rest)) => take_component_items(rest, (n - 1) as nat, got.push(item)),
        }
    }
}

/// The bytes of a list of components.
pub open spec fn put_components(items: Seq<ComponentView>) -> Seq<u8> {
    put_u64(items.len() as u64) + put_component_items(items)
}

/// The list of components at the start of `b`, and what follows it.
pub open spec fn take_components(b: Seq<u8>) -> Option<(Seq<ComponentView>, Seq<u8>)> {
    match take_u64(b) {
        None => None,
        Some((n, rest)) => take_component_items(rest, n as nat, Seq::empty()),
    }
}

/// The four identifiers of a record.
pub struct Identity {
    pub record_id: Seq<char>,
    pub site_id: Seq<char>,
    pub user_id: Seq<char>,
    pub group_id: Seq<char>,
}

/// The bytes of a record's identifiers.
pub open spec fn put_identity(id: Identity) -> Seq<u8> {
    put_text(id.record_id) + put_text(id.site_id) + put_text(id.user_id) + put_text(id.group_id)
}

/// The four valid names at the start of `b`, and what follows them.
pub open spec fn take_identity(b: Seq<u8>) -> Option<(Identity, Seq<u8>)> {
    match take_name(b) {
        None => None,
        Some((record_id, rest)) => match take_name(rest) {
            None => None,
            Some((site_id, rest)) => match take_name(rest) {
                None => None,
                Some((user_id, rest)) => match take_name(rest) {
                    None => None,
                    Some((group_id, rest)) => Some(
                        (Identity { record_id, site_id, user_id, group_id }, rest),
                    ),
                },
            },
        },
    }
}

/// The bytes of a record's start and stop.
pub open spec fn put_span(start: int, stop: Option<int>) -> Seq<u8> {
    put_time(start) + put_stop(stop)
}

/// The start and the stop at the start of `b`, and what follows them.
pub open spec fn take_span(b: Seq<u8>) -> Option<((int, Option<int>), Seq<u8>)> {
    match take_time(b) {
        None => None,
        Some((start, rest)) => match take_stop(rest) {
            None => None,
            Some((stop, rest)) => Some(((start, stop), rest)),
        },
    }
}

/// The identifiers of a record.
pub open spec fn identity_of(record: RecordView) -> Identity {
    Identity {
        record_id: record.record_id,
        site_id: record.site_id,
        user_id: record.user_id,
        group_id: record.group_id,
    }
}

/// The bytes of a record.
pub open spec fn put_record(record: RecordView) -> Seq<u8> {
    put_identity(identity_of(record)) + put_span(record.start_time, record.stop_time)
        + put_components(record.components)
}

/// The valid record at the start of `b`, and what follows it.
pub open spec fn take_record(b: Seq<u8>) -> Option<(RecordView, Seq<u8>)> {
    match take_identity(b) {
        None => None,
        Some((id, rest)) => match take_span(rest) {
            None => None,
            Some((span, rest)) => match take_components(rest) {
                None => None,
                Some((components, rest)) => Some(
                    (
                        RecordView {
                            record_id: id.record_id,
                            site_id: id.site_id,
                            user_id: id.user_id,
                            group_id: id.group_id,
                            components,
                            start_time: span.0,
                            stop_time: span.1,
                        },
                        rest,
                    ),
                ),
            },
        },
    }
}

/// The record that `b` is the binary form of: `b` holds one valid record
/// and nothing after it.
pub open spec fn decoded(b: Seq<u8>) -> Option<RecordView> {
    match take_record(b) {
        None => None,
        Some((record, rest)) => if rest.len() == 0 {
            Some(record)
        } else {
            None
        },
    }
}

/// A record that can be written: it is valid, and the lengths of its
/// lists are numbers of the format.
pub open spec fn encodable(record: RecordView) -> bool {
    &&& valid_record(record)
    &&& record.components.len() <= u64::MAX
    &&& forall|i: int|
        0 <= i < record.components.len() ==> (#[trigger] record.components[i]).scores.len()
            <= u64::MAX
}

/// A number is read back as it was written.
pub proof fn lemma_u64_round_trip(x: u64, tail: Seq<u8>)
    ensures
        put_u64(x).len() == 8,
        take_u64(put_u64(x) + tail) == Some((x, tail)),
{
    lemma_auto_spec_u64_to_from_le_bytes();
    let b = put_u64(x) + tail;
    assert(b.take(8) == put_u64(x));
    assert(b.skip(8) == tail);
}

/// The UTF-8 form of a character has at most four bytes.
proof fn lemma_scalar_len(c: char)
    ensures
        1 <= encode_scalar(c as u32).len() <= 4,
{
}

/// The UTF-8 form of a text has at most four bytes for each character.
pub proof fn lemma_utf8_len(s: Seq<char>)
    ensures
        encode_utf8(s).len() <= 4 * s.len(),
    decreases s.len(),
{
    if s.len() > 0 {
        lemma_scalar_len(s[0]);
        lemma_utf8_len(s.drop_first());
    }
}

/// A text is read back as it was written.
pub proof fn lemma_text_round_trip(s: Seq<char>, tail: Seq<u8>)
    requires
        encode_utf8(s).len() <= u64::MAX,
    ensures
        take_text(put_text(s) + tail) == Some((s, tail)),
{
    let body = encode_utf8(s);
    let n = body.len() as u64;
    lemma_u64_round_trip(n, body + tail);
    assert(put_text(s) + tail == put_u64(n) + (body + tail));
    assert((body + tail).take(n as int) == body);
    assert((body + tail).skip(n as int) == tail);
    encode_utf8_valid_utf8(s);
    encode_utf8_decode_utf8(s);
}

/// A valid name is read back as it was written.
pub proof fn lemma_name_round_trip(s: Seq<char>, tail: Seq<u8>)
    requires
        valid_name(s),
    ensures
        take_name(put_text(s) + tail) == Some((s, tail)),
{
    lemma_utf8_len(s);
    lemma_text_round_trip(s, tail);
}

/// Two's complement loses nothing.
proof fn lemma_seconds_cast(x: i64)
    by (bit_vector)
    ensures
        ((x as u64) as i64) == x,
{
}

/// A point in time is read back as it was written.
pub proof fn lemma_time_round_trip(t: int, tail: Seq<u8>)
    requires
        in_range(t),
    ensures
        take_time(put_time(t) + tail) == Some((t, tail)),
{
    lemma_seconds_cast(t as i64);
    lemma_u64_round_trip((t as i64) as u64, tail);
}

/// An optional point in time is read back as it was written.
pub proof fn lemma_stop_round_trip(stop: Option<int>, tail: Seq<u8>)
    requires
        stop matches Some(t) ==> in_range(t),
    ensures
        take_stop(put_stop(stop) + tail) == Some((stop, tail)),
{
    let b = put_stop(stop) + tail;
    match stop {
        None => {
            assert(b.skip(1) == tail);
        },
        Some(t) => {
            assert(b.skip(1) == put_time(t) + tail);
            lemma_time_round_trip(t, tail);
        },
    }
}

/// A valid score is read back as it was written.
pub proof fn lemma_score_round_trip(score: ScoreView, tail: Seq<u8>)
    requires
        valid_score(score),
    ensures
        take_score(put_score(score) + tail) == Some((score, tail)),
{
    let after_name = put_u64(score.factor_bits) + tail;
    assert(put_score(score) + tail == put_text(score.name) + after_name);
    lemma_name_round_trip(score.name, after_name);
    lemma_u64_round_trip(score.factor_bits, tail);
}

/// The bytes of some scores start with the bytes of the first.
proof fn lemma_score_items_first(items: Seq<ScoreView>)
    requires
        items.len() > 0,
    ensures
        put_score_items(items) == put_score(items[0]) + put_score_items(items.drop_first()),
    decreases items.len(),
{
    if items.len() == 1 {
        assert(items.drop_last().len() == 0);
        assert(items.drop_first().len() == 0);
        assert(put_score_items(items.drop_last()) == Seq::<u8>::empty());
        assert(put_score_items(items.drop_first()) == Seq::<u8>::empty());
        assert(items.last() == items[0]);
    } else {
        let front = items.drop_last();
        lemma_score_items_first(front);
        assert(items.drop_first().drop_last() == front.drop_first());
        assert(items.drop_first().last() == items.last());
        assert(put_score_items(items) == (put_score(items[0]) + put_score_items(
            front.drop_first(),
        )) + put_score(items.last()));
        assert(put_score_items(items.drop_first()) == put_score_items(front.drop_first())
            + put_score(items.last()));
    }
}

/// Valid scores are read back, one after the other, as they were
/// written.
pub proof fn lemma_score_items_round_trip(
    items: Seq<ScoreView>,
    tail: Seq<u8>,
    got: Seq<ScoreView>,
)
    requires
        forall|i: int| 0 <= i < items.len() ==> valid_score(#[trigger] items[i]),
    ensures
        take_score_items(put_score_items(items) + tail, items.len(), got) == Some(
            (got + items, tail),
        ),
    decreases items.len(),
{
    if items.len() == 0 {
        assert(put_score_items(items) + tail == tail);
        assert(got + items == got);
    } else {
        let rest = items.drop_first();
        lemma_score_items_first(items);
        assert(put_score_items(items) + tail == put_score(items[0]) + (put_score_items(rest)
            + tail));
        lemma_score_round_trip(items[0], put_score_items(rest) + tail);
        assert forall|i: int| 0 <= i < rest.len() implies valid_score(#[trigger] rest[i]) by {
            assert(rest[i] == items[i + 1]);
        }
        lemma_score_items_round_trip(rest, tail, got.push(items[0]));
        assert(got.push(items[0]) + rest == got + items);
    }
}

/// A list of valid scores is read back as it was written.
pub proof fn lemma_scores_round_trip(items: Seq<ScoreView>, tail: Seq<u8>)
    requires
        items.len() <= u64::MAX,
        forall|i: int| 0 <= i < items.len() ==> valid_score(#[trigger] items[i]),
    ensures
        take_scores(put_scores(items) + tail) == Some((items, tail)),
{
    let after_len = put_score_items(items) + tail;
    assert(put_scores(items) + tail == put_u64(items.len() as u64) + after_len);
    lemma_u64_round_trip(items.len() as u64, after_len);
    lemma_score_items_round_trip(items, tail, Seq::empty());
    assert(Seq::<ScoreView>::empty() + items == items);
}

/// A valid component is read back as it was written.
pub proof fn lemma_component_round_trip(component: ComponentView, tail: Seq<u8>)
    requires
        valid_component(component),
        component.scores.len() <= u64::MAX,
    ensures
        take_component(put_component(component) + tail) == Some((component, tail)),
{
    let after_amount = put_scores(component.scores) + tail;
    let after_name = put_u64(component.amount) + after_amount;
    assert(put_component(component) + tail == put_text(component.name) + after_name);
    lemma_name_round_trip(component.name, after_name);
    lemma_u64_round_trip(component.amount, after_amount);
    lemma_scores_round_trip(component.scores, tail);
}

/// The bytes of some components start with the bytes of the first.
proof fn lemma_component_items_first(items: Seq<ComponentView>)
    requires
        items.len() > 0,
    ensures
        put_component_items(items) == put_component(items[0]) + put_component_items(
            items.drop_first(),
        ),
    decreases items.len(),
{
    if items.len() == 1 {
        assert(items.drop_last().len() == 0);
        assert(items.drop_first().len() == 0);
        assert(put_component_items(items.drop_last()) == Seq::<u8>::empty());
        assert(put_component_items(items.drop_first()) == Seq::<u8>::empty());
        assert(items.last() == items[0]);
    } else {
        let front = items.drop_last();
        lemma_component_items_first(front);
        assert(items.drop_first().drop_last() == front.drop_first());
        assert(items.drop_first().last() == items.last());
        assert(put_component_items(items) == (put_component(items[0]) + put_component_items(
            front.drop_first(),
        )) + put_component(items.last()));
        assert(put_component_items(items.drop_first()) == put_component_items(
            front.drop_first(),
        ) + put_component(items.last()));
    }
}

/// Valid components are read back, one after the other, as they were
/// written.
pub proof fn lemma_component_items_round_trip(
    items: Seq<ComponentView>,
    tail: Seq<u8>,
    got: Seq<ComponentView>,
)
    requires
        forall|i: int|
            0 <= i < items.len() ==> valid_component(#[trigger] items[i]) && items[i].scores.len()
                <= u64::MAX,
    ensures
        take_component_items(put_component_items(items) + tail, items.len(), got) == Some(
            (got + items, tail),
        ),
    decreases items.len(),
{
    if items.len() == 0 {
        assert(put_component_items(items) + tail == tail);
        assert(got + items == got);
    } else {
        let rest = items.drop_first();
        lemma_component_items_first(items);
        assert(put_component_items(items) + tail == put_component(items[0]) + (
        put_component_items(rest) + tail));
        lemma_component_round_trip(items[0], put_component_items(rest) + tail);
        assert forall|i: int| 0 <= i < rest.len() implies valid_component(#[trigger] rest[i])
            && rest[i].scores.len() <= u64::MAX by {
            assert(rest[i] == items[i + 1]);
        }
        lemma_component_items_round_trip(rest, tail, got.push(items[0]));
        assert(got.push(items[0]) + rest == got + items);
    }
}

/// A list of valid components is read back as it was written.
pub proof fn lemma_components_round_trip(items: Seq<ComponentView>, tail: Seq<u8>)
    requires
        items.len() <= u64::MAX,
        forall|i: int|
            0 <= i < items.len() ==> valid_component(#[trigger] items[i]) && items[i].scores.len()
                <= u64::MAX,
    ensures
        take_components(put_components(items) + tail) == Some((items, tail)),
{
    let after_len = put_component_items(items) + tail;
    assert(put_components(items) + tail == put_u64(items.len() as u64) + after_len);
    lemma_u64_round_trip(items.len() as u64, after_len);
    lemma_component_items_round_trip(items, tail, Seq::empty());
    assert(Seq::<ComponentView>::empty() + items == items);
}

/// Four valid names are read back as they were written.
pub proof fn lemma_identity_round_trip(id: Identity, tail: Seq<u8>)
    requires
        valid_name(id.record_id),
        valid_name(id.site_id),
        valid_name(id.user_id),
        valid_name(id.group_id),
    ensures
        take_identity(put_identity(id) + tail) == Some((id, tail)),
{
    let b3 = put_text(id.group_id) + tail;
    let b2 = put_text(id.user_id) + b3;
    let b1 = put_text(id.site_id) + b2;
    assert(put_identity(id) + tail == put_text(id.record_id) + b1);
    lemma_name_round_trip(id.record_id, b1);
    lemma_name_round_trip(id.site_id, b2);
    lemma_name_round_trip(id.user_id, b3);
    lemma_name_round_trip(id.group_id, tail);
}

/// A start and a stop are read back as they were written.
pub proof fn lemma_span_round_trip(start: int, stop: Option<int>, tail: Seq<u8>)
    requires
        in_range(start),
        stop matches Some(t) ==> in_range(t),
    ensures
        take_span(put_span(start, stop) + tail) == Some(((start, stop), tail)),
{
    let b1 = put_stop(stop) + tail;
    assert(put_span(start, stop) + tail == put_time(start) + b1);
    lemma_time_round_trip(start, b1);
    lemma_stop_round_trip(stop, tail);
}

/// A record is read back as it was written, whatever follows it.
pub proof fn lemma_record_round_trip(record: RecordView, tail: Seq<u8>)
    requires
        encodable(record),
    ensures
        take_record(put_record(record) + tail) == Some((record, tail)),
{
    let b2 = put_components(record.components) + tail;
    let b1 = put_span(record.start_time, record.stop_time) + b2;
    assert(put_record(record) + tail == put_identity(identity_of(record)) + b1);
    lemma_identity_round_trip(identity_of(record), b1);
    lemma_span_round_trip(record.start_time, record.stop_time, b2);
    lemma_components_round_trip(record.components, tail);
}

/// Decoding undoes encoding: the binary form of a record that can be
/// written, a record without components included, is read back as that
/// record.
pub proof fn lemma_decode_encode(record: RecordView)
    requires
        encodable(record),
    ensures
        decoded(put_record(record)) == Some(record),
{
    lemma_record_round_trip(record, Seq::empty());
    assert(put_record(record) + Seq::<u8>::empty() == put_record(record));
}

/// Appends the bytes of a number.
fn write_u64(out: &mut Vec<u8>, x: u64)
    ensures
        final(out)@ == old(out)@ + put_u64(x),
{
    let bytes = u64_to_le_bytes(x);
    out.extend_from_slice(bytes.as_slice());
}

/// Appends the bytes of a text.
fn write_text(out: &mut Vec<u8>, s: &str)
    ensures
        final(out)@ == old(out)@ + put_text(s@),
{
    let body = s.as_bytes();
    write_u64(out, body.len() as u64);
    out.extend_from_slice(body);
    assert(out@ == old(out)@ + put_text(s@));
}

/// Appends the bytes of a point in time.
fn write_time(out: &mut Vec<u8>, t: Timestamp)
    ensures
        final(out)@ == old(out)@ + put_time(t@),
        in_range(t@),
{
    let seconds = t.seconds();
    write_u64(out, #[verifier::truncate] (seconds as u64));
}

/// Appends the bytes of a score.
fn write_score(out: &mut Vec<u8>, score: &Score)
    ensures
        final(out)@ == old(out)@ + put_score(score@),
        valid_score(score@),
{
    write_text(out, score.name());
    write_u64(out, score.factor_bits());
    assert(out@ == old(out)@ + put_score(score@));
}

/// Appends the bytes of a list of scores.
fn write_scores(out: &mut Vec<u8>, scores: &Vec<Score>)
    ensures
        final(out)@ == old(out)@ + put_scores(score_views(scores@)),
        forall|i: int| 0 <= i < scores.len() ==> valid_score(#[trigger] score_views(scores@)[i]),
{
    let ghost all = score_views(scores@);
    write_u64(out, scores.len() as u64);
    let ghost headed = out@;
    let mut i: usize = 0;
    assert(put_score_items(all.take(0)) == Seq::<u8>::empty());
    while i < scores.len()
        invariant
            i <= scores.len(),
            all == score_views(scores@),
            out@ == headed + put_score_items(all.take(i as int)),
            forall|j: int| 0 <= j < i ==> valid_score(#[trigger] all[j]),
        decreases scores.len() - i,
    {
        let ghost before = out@;
        write_score(out, &scores[i]);
        proof {
            assert(all.take(i + 1).drop_last() == all.take(i as int));
            assert(all.take(i + 1).last() == scores@[i as int]@);
            assert(out@ == headed + put_score_items(all.take(i + 1)));
        }
        i += 1;
    }
    assert(all.take(i as int) == all);
    assert(out@ == old(out)@ + put_scores(all));
}

/// Appends the bytes of a component.
fn write_component(out: &mut Vec<u8>, component: &Component)
    ensures
        final(out)@ == old(out)@ + put_component(component@),
        valid_component(component@),
        component@.scores.len() <= u64::MAX,
{
    write_text(out, component.name());
    write_u64(out, component.amount());
    let scores = component.scores();
    assert(score_views(scores@).len() == scores.len());
    write_scores(out, scores);
    assert(out@ == old(out)@ + put_component(component@));
}

/// Appends the bytes of a list of components.
fn write_components(out: &mut Vec<u8>, components: &Vec<Component>)
    ensures
        final(out)@ == old(out)@ + put_components(component_views(components@)),
        forall|i: int|
            0 <= i < components.len() ==> valid_component(
                #[trigger] component_views(components@)[i],
            ) && component_views(components@)[i].scores.len() <= u64::MAX,
{
    let ghost all = component_views(components@);
    write_u64(out, components.len() as u64);
    let ghost headed = out@;
    let mut i: usize = 0;
    assert(put_component_items(all.take(0)) == Seq::<u8>::empty());
    while i < components.len()
        invariant
            i <= components.len(),
            all == component_views(components@),
            out@ == headed + put_component_items(all.take(i as int)),
            forall|j: int|
                0 <= j < i ==> valid_component(#[trigger] all[j]) && all[j].scores.len()
                    <= u64::MAX,
        decreases components.len() - i,
    {
        write_component(out, &components[i]);
        proof {
            assert(all.take(i + 1).drop_last() == all.take(i as int));
            assert(all.take(i + 1).last() == components@[i as int]@);
            assert(out@ == headed + put_component_items(all.take(i + 1)));
        }
        i += 1;
    }
    assert(all.take(i as int) == all);
    assert(out@ == old(out)@ + put_components(all));
}

/// Appends the bytes of a record's identifiers.
fn write_identity(out: &mut Vec<u8>, record: &Record)
    ensures
        final(out)@ == old(out)@ + put_identity(identity_of(record@)),
        valid_name(record@.record_id),
        valid_name(record@.site_id),
        valid_name(record@.user_id),
        valid_name(record@.group_id),
{
    write_text(out, record.record_id().as_str());
    write_text(out, record.site_id().as_str());
    write_text(out, record.user_id().as_str());
    write_text(out, record.group_id().as_str());
    assert(out@ == old(out)@ + put_identity(identity_of(record@)));
}

/// Appends the bytes of a record's start and stop.
fn write_span(out: &mut Vec<u8>, record: &Record)
    ensures
        final(out)@ == old(out)@ + put_span(record@.start_time, record@.stop_time),
        in_range(record@.start_time),
        record@.stop_time matches Some(t) ==> in_range(t),
{
    write_time(out, record.start_time());
    let ghost timed = out@;
    match record.stop_time() {
        None => {
            out.push(0u8);
            assert(out@ == timed + put_stop(record@.stop_time));
        },
        Some(t) => {
            out.push(1u8);
            write_time(out, t);
            assert(out@ == timed + put_stop(record@.stop_time));
        },
    }
    assert(out@ == old(out)@ + put_span(record@.start_time, record@.stop_time));
}

/// The binary form of `record`.
pub fn encode_record(record: &Record) -> (bytes: Vec<u8>)
    ensures
        bytes@ == put_record(record@),
        encodable(record@),
{
    let mut out: Vec<u8> = Vec::new();
    write_identity(&mut out, record);
    write_span(&mut out, record);
    let components = record.components_ref();
    assert(component_views(components@).len() == components.len());
    write_components(&mut out, components);
    assert(out@ == put_record(record@));
    out
}

/// `String::from_utf8` of the standard library: the text whose UTF-8
/// form `bytes` is, if it is one.
#[verifier::external_body]
fn string_from_utf8(bytes: Vec<u8>) -> (r: Option<String>)
    ensures
        r is Some <==> valid_utf8(bytes@),
        r matches Some(s) ==> s@ == decode_utf8(bytes@),
{
    match String::from_utf8(bytes) {
        Ok(s) => Some(s),
        Err(_) => None,
    }
}

/// Reads the number at `pos`.
fn read_u64(bytes: &[u8], pos: usize) -> (r: Option<(u64, usize)>)
    requires
        pos <= bytes.len(),
    ensures
        match r {
            Some((x, next)) => pos <= next <= bytes.len() && take_u64(bytes@.skip(pos as int))
                == Some((x, bytes@.skip(next as int))),
            None => take_u64(bytes@.skip(pos as int)) is None,
        },
{
    if bytes.len() - pos < 8 {
        return None;
    }
    let x = u64_from_le_bytes(slice_subrange(bytes, pos, pos + 8));
    proof {
        assert(bytes@.skip(pos as int).take(8) == bytes@.subrange(pos as int, pos + 8));
        assert(bytes@.skip(pos as int).skip(8) == bytes@.skip(pos + 8));
    }
    Some((x, pos + 8))
}

/// Reads the text at `pos`.
fn read_text(bytes: &[u8], pos: usize) -> (r: Option<(String, usize)>)
    requires
        pos <= bytes.len(),
    ensures
        match r {
            Some((s, next)) => pos <= next <= bytes.len() && take_text(bytes@.skip(pos as int))
                == Some((s@, bytes@.skip(next as int))),
            None => take_text(bytes@.skip(pos as int)) is None,
        },
{
    let (n, at) = match read_u64(bytes, pos) {
        None => {
            return None;
        },
        Some(found) => found,
    };
    if n > (bytes.len() - at) as u64 {
        return None;
    }
    let n = n as usize;
    let body = slice_to_vec(slice_subrange(bytes, at, at + n));
    proof {
        assert(bytes@.skip(at as int).take(n as int) == bytes@.subrange(at as int, at + n));
        assert(bytes@.skip(at as int).skip(n as int) == bytes@.skip(at + n));
    }
    match string_from_utf8(body) {
        None => None,
        Some(s) => Some((s, at + n)),
    }
}

/// Reads the valid name at `pos`.
fn read_name(bytes: &[u8], pos: usize) -> (r: Option<(String, usize)>)
    requires
        pos <= bytes.len(),
    ensures
        match r {
            Some((s, next)) => pos <= next <= bytes.len() && take_name(bytes@.skip(pos as int))
                == Some((s@, bytes@.skip(next as int))),
            None => take_name(bytes@.skip(pos as int)) is None,
        },
{
    match read_text(bytes, pos) {
        None => None,
        Some((s, next)) => if is_valid_name(s.as_str()) {
            Some((s, next))
        } else {
            None
        },
    }
}

/// Reads the point in time at `pos`.
fn read_time(bytes: &[u8], pos: usize) -> (r: Option<(Timestamp, usize)>)
    requires
        pos <= bytes.len(),
    ensures
        match r {
            Some((t, next)) => pos <= next <= bytes.len() && take_time(bytes@.skip(pos as int))
                == Some((t@, bytes@.skip(next as int))),
            None => take_time(bytes@.skip(pos as int)) is None,
        },
{
    match read_u64(bytes, pos) {
        None => None,
        Some((x, next)) => match Timestamp::from_seconds(#[verifier::truncate] (x as i64)) {
            None => None,
            Some(t) => Some((t, next)),
        },
    }
}

/// Reads the optional point in time at `pos`.
fn read_stop(bytes: &[u8], pos: usize) -> (r: Option<(Option<Timestamp>, usize)>)
    requires
        pos <= bytes.len(),
    ensures
        match r {
            Some((t, next)) => pos <= next <= bytes.len() && take_stop(bytes@.skip(pos as int))
                == Some((crate::record::time_view(t), bytes@.skip(next as int))),
            None => take_stop(bytes@.skip(pos as int)) is None,
        },
{
    if pos == bytes.len() {
        return None;
    }
    let tag = bytes[pos];
    proof {
        assert(bytes@.skip(pos as int)[0] == tag);
        assert(bytes@.skip(pos as int).skip(1) == bytes@.skip(pos + 1));
    }
    if tag == 0 {
        Some((None, pos + 1))
    } else if tag == 1 {
        match read_time(bytes, pos + 1) {
            None => None,
            Some((t, next)) => Some((Some(t), next)),
        }
    } else {
        None
    }
}

/// Reads the valid score at `pos`.
fn read_score(bytes: &[u8], pos: usize) -> (r: Option<(Score, usize)>)
    requires
        pos <= bytes.len(),
    ensures
        match r {
            Some((score, next)) => pos <= next <= bytes.len() && take_score(
                bytes@.skip(pos as int),
            ) == Some((score@, bytes@.skip(next as int))),
            None => take_score(bytes@.skip(pos as int)) is None,
        },
{
    let (name, at) = match read_name(bytes, pos) {
        None => {
            return None;
        },
        Some(found) => found,
    };
    let (factor_bits, next) = match read_u64(bytes, at) {
        None => {
            return None;
        },
        Some(found) => found,
    };
    match Score::new(name, factor_bits) {
        Ok(score) => Some((score, next)),
        Err(_) => None,
    }
}

/// Reads the list of scores at `pos`.
fn read_scores(bytes: &[u8], pos: usize) -> (r: Option<(Vec<Score>, usize)>)
    requires
        pos <= bytes.len(),
    ensures
        match r {
            Some((scores, next)) => pos <= next <= bytes.len() && take_scores(
                bytes@.skip(pos as int),
            ) == Some((score_views(scores@), bytes@.skip(next as int))),
            None => take_scores(bytes@.skip(pos as int)) is None,
        },
{
    let (n, start) = match read_u64(bytes, pos) {
        None => {
            return None;
        },
        Some(found) => found,
    };
    let mut got: Vec<Score> = Vec::new();
    let mut at: usize = start;
    let mut i: u64 = 0;
    assert(score_views(got@) == Seq::<ScoreView>::empty());
    while i < n
        invariant
            i <= n,
            pos <= at <= bytes.len(),
            take_scores(bytes@.skip(pos as int)) == take_score_items(
                bytes@.skip(at as int),
                (n - i) as nat,
                score_views(got@),
            ),
        decreases n - i,
    {
        let ghost before = got@;
        match read_score(bytes, at) {
            None => {
                return None;
            },
            Some((score, next)) => {
                got.push(score);
                assert(score_views(got@) == score_views(before).push(score@));
                at = next;
            },
        }
        i += 1;
    }
    Some((got, at))
}

/// Reads the valid component at `pos`.
fn read_component(bytes: &[u8], pos: usize) -> (r: Option<(Component, usize)>)
    requires
        pos <= bytes.len(),
    ensures
        match r {
            Some((component, next)) => pos <= next <= bytes.len() && take_component(
                bytes@.skip(pos as int),
            ) == Some((component@, bytes@.skip(next as int))),
            None => take_component(bytes@.skip(pos as int)) is None,
        },
{
    let (name, at) = match read_name(bytes, pos) {
        None => {
            return None;
        },
        Some(found) => found,
    };
    let (amount, at) = match read_u64(bytes, at) {
        None => {
            return None;
        },
        Some(found) => found,
    };
    let (scores, next) = match read_scores(bytes, at) {
        None => {
            return None;
        },
        Some(found) => found,
    };
    match Component::new(name, amount, scores) {
        Some(component) => Some((component, next)),
        None => None,
    }
}

/// Reads the list of components at `pos`.
fn read_components(bytes: &[u8], pos: usize) -> (r: Option<(Vec<Component>, usize)>)
    requires
        pos <= bytes.len(),
    ensures
        match r {
            Some((components, next)) => pos <= next <= bytes.len() && take_components(
                bytes@.skip(pos as int),
            ) == Some((component_views(components@), bytes@.skip(next as int))),
            None => take_components(bytes@.skip(pos as int)) is None,
        },
{
    let (n, start) = match read_u64(bytes, pos) {
        None => {
            return None;
        },
        Some(found) => found,
    };
    let mut got: Vec<Component> = Vec::new();
    let mut at: usize = start;
    let mut i: u64 = 0;
    assert(component_views(got@) == Seq::<ComponentView>::empty());
    while i < n
        invariant
            i <= n,
            pos <= at <= bytes.len(),
            take_components(bytes@.skip(pos as int)) == take_component_items(
                bytes@.skip(at as int),
                (n - i) as nat,
                component_views(got@),
            ),
        decreases n - i,
    {
        let ghost before = got@;
        match read_component(bytes, at) {
            None => {
                return None;
            },
            Some((component, next)) => {
                got.push(component);
                assert(component_views(got@) == component_views(before).push(component@));
                at = next;
            },
        }
        i += 1;
    }
    Some((got, at))
}

/// Reads the four valid names at `pos`.
fn read_identity(bytes: &[u8], pos: usize) -> (r: Option<((String, String, String, String), usize)>)
    requires
        pos <= bytes.len(),
    ensures
        match r {
            Some((names, next)) => pos <= next <= bytes.len() && take_identity(
                bytes@.skip(pos as int),
            ) == Some(
                (
                    Identity {
                        record_id: names.0@,
                        site_id: names.1@,
                        user_id: names.2@,
                        group_id: names.3@,
                    },
                    bytes@.skip(next as int),
                ),
            ),
            None => take_identity(bytes@.skip(pos as int)) is None,
        },
{
    let (record_id, at) = match read_name(bytes, pos) {
        None => {
            return None;
        },
        Some(found) => found,
    };
    let (site_id, at) = match read_name(bytes, at) {
        None => {
            return None;
        },
        Some(found) => found,
    };
    let (user_id, at) = match read_name(bytes, at) {
        None => {
            return None;
        },
        Some(found) => found,
    };
    let (group_id, at) = match read_name(bytes, at) {
        None => {
            return None;
        },
        Some(found) => found,
    };
    Some(((record_id, site_id, user_id, group_id), at))
}

/// Reads the start and the stop at `pos`.
fn read_span(bytes: &[u8], pos: usize) -> (r: Option<((Timestamp, Option<Timestamp>), usize)>)
    requires
        pos <= bytes.len(),
    ensures
        match r {
            Some((span, next)) => pos <= next <= bytes.len() && take_span(bytes@.skip(pos as int))
                == Some(((span.0@, crate::record::time_view(span.1)), bytes@.skip(next as int))),
            None => take_span(bytes@.skip(pos as int)) is None,
        },
{
    let (start, at) = match read_time(bytes, pos) {
        None => {
            return None;
        },
        Some(found) => found,
    };
    let (stop, at) = match read_stop(bytes, at) {
        None => {
            return None;
        },
        Some(found) => found,
    };
    Some(((start, stop), at))
}

/// Puts a record together from parts that were read.
fn rebuild(
    names: (String, String, String, String),
    span: (Timestamp, Option<Timestamp>),
    components: Vec<Component>,
) -> (r: Option<Record>)
    requires
        valid_name(names.0@),
        valid_name(names.1@),
        valid_name(names.2@),
        valid_name(names.3@),
    ensures
        r matches Some(record) && record@ == (RecordView {
            record_id: names.0@,
            site_id: names.1@,
            user_id: names.2@,
            group_id: names.3@,
            components: component_views(components@),
            start_time: span.0@,
            stop_time: crate::record::time_view(span.1),
        }),
{
    proof {
        lemma_clean_is_fixed(names.0@);
        lemma_clean_is_fixed(names.1@);
        lemma_clean_is_fixed(names.2@);
        lemma_clean_is_fixed(names.3@);
    }
    let record = match Record::new(names.0, names.1, names.2, names.3, span.0) {
        Ok(record) => record,
        Err(_) => {
            return None;
        },
    };
    let record = record.with_components(components);
    assert(Seq::<ComponentView>::empty() + record@.components == record@.components);
    match span.1 {
        Some(t) => Some(record.with_stop_time(t)),
        None => Some(record),
    }
}

/// The bytes are not the binary form of a record.
#[derive(Debug)]
pub struct Malformed;

/// Reads a record from its binary form. Bytes that are cut short, that
/// go on after the record, or that hold an invalid name, factor or time,
/// are refused.
pub fn decode_record(bytes: &[u8]) -> (r: Result<Record, Malformed>)
    ensures
        match r {
            Ok(record) => decoded(bytes@) == Some(record@),
            Err(_) => decoded(bytes@) is None,
        },
{
    assert(bytes@.skip(0) == bytes@);
    let (names, at) = match read_identity(bytes, 0) {
        None => {
            return Err(Malformed);
        },
        Some(found) => found,
    };
    let (span, at) = match read_span(bytes, at) {
        None => {
            return Err(Malformed);
        },
        Some(found) => found,
    };
    let (components, at) = match read_components(bytes, at) {
        None => {
            return Err(Malformed);
        },
        Some(found) => found,
    };
    if at != bytes.len() {
        return Err(Malformed);
    }
    match rebuild(names, span, components) {
        Some(record) => Ok(record),
        None => Err(Malformed),
    }
}

} // verus!
