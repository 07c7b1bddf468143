//! One line of a stream: where it ends, which field it holds, and the text of that field.

use vstd::prelude::*;
use vstd::slice::slice_subrange;

use crate::text;
use crate::values;

verus! {

/// The line feed.
pub const LF: u8 = 10;

/// The carriage return.
pub const CR: u8 = 13;

/// The number of bytes in front of the first line feed; the length of `bytes` if there is none.
pub open spec fn line_end(bytes: Seq<u8>) -> int
    decreases bytes.len(),
{
    if bytes.len() == 0 || bytes.first() == LF {
        0
    } else {
        1 + line_end(bytes.drop_first())
    }
}

/// `line` without the carriage return that may stand at its end.
pub open spec fn without_cr(line: Seq<u8>) -> Seq<u8> {
    if line.len() > 0 && line.last() == CR {
        line.drop_last()
    } else {
        line
    }
}

/// The position of the first line feed is where `line_end` says.
pub proof fn lemma_line_end(bytes: Seq<u8>)
    ensures
        0 <= line_end(bytes) <= bytes.len(),
        line_end(bytes) < bytes.len() ==> bytes[line_end(bytes)] == LF,
        forall|i: int| 0 <= i < line_end(bytes) ==> bytes[i] != LF,
    decreases bytes.len(),
{
    if bytes.len() > 0 && bytes.first() != LF {
        let rest = bytes.drop_first();
        lemma_line_end(rest);
        assert forall|i: int| 0 <= i < line_end(bytes) implies bytes[i] != LF by {
            if i > 0 {
                assert(rest[i - 1] == bytes[i]);
            }
        }
    }
}

/// A position in front of which there is no line feed, and at which there is one or nothing, is
/// the end of the line.
pub proof fn lemma_line_end_unique(bytes: Seq<u8>, end: int)
    requires
        0 <= end <= bytes.len(),
        end < bytes.len() ==> bytes[end] == LF,
        forall|i: int| 0 <= i < end ==> bytes[i] != LF,
    ensures
        line_end(bytes) == end,
{
    lemma_line_end(bytes);
}

/// What a line says, with its text still in bytes.
pub enum RawField {
    Blank,
    Data(Seq<u8>),
    Event(Seq<u8>),
    Id(Seq<u8>),
    Comment(Seq<u8>),
    Ignored,
}

/// The bytes of `data:`.
pub open spec fn data_name() -> Seq<u8> {
    vstd::utf8::encode_utf8("data:"@)
}

/// The bytes of `event:`.
pub open spec fn event_name() -> Seq<u8> {
    vstd::utf8::encode_utf8("event:"@)
}

/// The bytes of `id:`.
pub open spec fn id_name() -> Seq<u8> {
    vstd::utf8::encode_utf8("id:"@)
}

/// The byte that starts a comment.
pub open spec fn comment_mark() -> Seq<u8> {
    vstd::utf8::encode_utf8(":"@)
}

/// The names of the fields, byte by byte.
pub proof fn lemma_names()
    ensures
        data_name() == seq![100u8, 97, 116, 97, 58],
        event_name() == seq![101u8, 118, 101, 110, 116, 58],
        id_name() == seq![105u8, 100, 58],
        comment_mark() == seq![58u8],
{
    reveal_strlit("data:");
    reveal_strlit("event:");
    reveal_strlit("id:");
    reveal_strlit(":");
    vstd::utf8::is_ascii_chars_encode_utf8("data:"@);
    vstd::utf8::is_ascii_chars_encode_utf8("event:"@);
    vstd::utf8::is_ascii_chars_encode_utf8("id:"@);
    vstd::utf8::is_ascii_chars_encode_utf8(":"@);
    assert(data_name() =~= seq![100u8, 97, 116, 97, 58]);
    assert(event_name() =~= seq![101u8, 118, 101, 110, 116, 58]);
    assert(id_name() =~= seq![105u8, 100, 58]);
    assert(comment_mark() =~= seq![58u8]);
}

/// The field that a line holds.
pub open spec fn raw_field(line: Seq<u8>) -> RawField {
    if line.len() == 0 {
        RawField::Blank
    } else if data_name().is_prefix_of(line) {
        RawField::Data(line.skip(data_name().len() as int))
    } else if event_name().is_prefix_of(line) {
        RawField::Event(line.skip(event_name().len() as int))
    } else if id_name().is_prefix_of(line) {
        RawField::Id(line.skip(id_name().len() as int))
    } else if comment_mark().is_prefix_of(line) {
        RawField::Comment(line.skip(comment_mark().len() as int))
    } else {
        RawField::Ignored
    }
}

/// The text of a field's value: decoded, and trimmed of white space.
pub open spec fn value_text(value: Seq<u8>) -> Seq<char> {
    text::trimmed(text::utf8_or(value, text::replaced_utf8(value)))
}

/// What a line says to the parser.
#[derive(Debug, PartialEq, Eq, Clone)]
pub enum Field {
    /// An empty line, the end of an event block.
    Blank,
    /// The value of a `data:` field.
    Data(String),
    /// The value of an `event:` field.
    Event(String),
    /// The value of an `id:` field.
    Id(String),
    /// The text of a comment.
    Comment(String),
    /// Any other line, `retry:` fields among them.
    Ignored,
}

/// The texts of a [`Field`].
pub enum FieldView {
    Blank,
    Data(Seq<char>),
    Event(Seq<char>),
    Id(Seq<char>),
    Comment(Seq<char>),
    Ignored,
}

impl View for Field {
    type V = FieldView;

    open spec fn view(&self) -> FieldView {
        match *self {
            Field::Blank => FieldView::Blank,
            Field::Data(text) => FieldView::Data(text@),
            Field::Event(text) => FieldView::Event(text@),
            Field::Id(text) => FieldView::Id(text@),
            Field::Comment(text) => FieldView::Comment(text@),
            Field::Ignored => FieldView::Ignored,
        }
    }
}

/// What a line, without its line ending, says to the parser.
pub open spec fn field_of(line: Seq<u8>) -> FieldView {
    match raw_field(line) {
        RawField::Blank => FieldView::Blank,
        RawField::Data(value) => FieldView::Data(value_text(value)),
        RawField::Event(value) => FieldView::Event(value_text(value)),
        RawField::Id(value) => FieldView::Id(value_text(value)),
        RawField::Comment(value) => FieldView::Comment(value_text(value)),
        RawField::Ignored => FieldView::Ignored,
    }
}

/// What starts with a name has it as a prefix, and no other name that starts differently.
proof fn lemma_starts_with(name: Seq<u8>, value: Seq<u8>)
    requires
        name.len() > 0,
    ensures
        name.is_prefix_of(name + value),
        (name + value).skip(name.len() as int) == value,
        forall|other: Seq<u8>|
            #![trigger other.is_prefix_of(name + value)]
            other.len() > 0 && other[0] != name[0] ==> !other.is_prefix_of(name + value),
{
    let bytes = name + value;
    assert(bytes.subrange(0, name.len() as int) =~= name);
    assert(bytes.skip(name.len() as int) =~= value);
    assert forall|other: Seq<u8>|
        #![trigger other.is_prefix_of(bytes)]
        other.len() > 0 && other[0] != name[0] implies !other.is_prefix_of(bytes) by {
        if other.is_prefix_of(bytes) {
            assert(other[0] == bytes.subrange(0, other.len() as int)[0]);
        }
    }
}

/// What stands behind `data:` is the value of a `data:` field.
pub proof fn law_data_line(value: Seq<u8>)
    ensures
        field_of(data_name() + value) == FieldView::Data(value_text(value)),
{
    lemma_names();
    lemma_starts_with(data_name(), value);
}

/// What stands behind `event:` is the value of an `event:` field.
pub proof fn law_event_line(value: Seq<u8>)
    ensures
        field_of(event_name() + value) == FieldView::Event(value_text(value)),
{
    lemma_names();
    lemma_starts_with(event_name(), value);
}

/// What stands behind `id:` is the value of an `id:` field.
pub proof fn law_id_line(value: Seq<u8>)
    ensures
        field_of(id_name() + value) == FieldView::Id(value_text(value)),
{
    lemma_names();
    lemma_starts_with(id_name(), value);
}

/// What stands behind a colon at the start of a line is a comment.
pub proof fn law_comment_line(value: Seq<u8>)
    ensures
        field_of(comment_mark() + value) == FieldView::Comment(value_text(value)),
{
    lemma_names();
    lemma_starts_with(comment_mark(), value);
}

/// The first byte of `retry:`.
proof fn lemma_retry_name()
    ensures
        vstd::utf8::encode_utf8("retry:"@).len() > 0,
        vstd::utf8::encode_utf8("retry:"@)[0] == 114u8,
{
    reveal_strlit("retry:");
    vstd::utf8::is_ascii_chars_encode_utf8("retry:"@);
    assert("retry:"@[0] == 'r');
}

/// A `retry:` line is ignored, whatever stands behind the colon.
pub proof fn law_retry_line(value: Seq<u8>)
    ensures
        field_of(vstd::utf8::encode_utf8("retry:"@) + value) == FieldView::Ignored,
{
    lemma_names();
    lemma_retry_name();
    lemma_starts_with(vstd::utf8::encode_utf8("retry:"@), value);
}

/// The number of bytes in front of the first line feed, if there is one.
pub fn find_line_end(bytes: &[u8]) -> (end: Option<usize>)
    ensures
        match end {
            Some(i) => i < bytes@.len() && i == line_end(bytes@),
            None => line_end(bytes@) == bytes@.len(),
        },
        end is Some <==> bytes@.contains(10u8),
        end matches Some(i) ==> bytes@[i as int] == 10u8 && !bytes@.take(i as int).contains(10u8),
{
    let mut i: usize = 0;
    while i < bytes.len()
        invariant
            i <= bytes@.len(),
            forall|j: int| 0 <= j < i ==> bytes@[j] != LF,
        decreases bytes@.len() - i,
    {
        if bytes[i] == LF {
            proof {
                lemma_line_end_unique(bytes@, i as int);
            }
            return Some(i);
        }
        i = i + 1;
    }
    proof {
        lemma_line_end_unique(bytes@, i as int);
    }
    None
}

/// `bytes` behind `prefix`, if they start with it.
pub fn strip_prefix<'a>(bytes: &'a [u8], prefix: &[u8]) -> (rest: Option<&'a [u8]>)
    ensures
        match rest {
            Some(r) => prefix@.is_prefix_of(bytes@) && r@ == bytes@.skip(prefix@.len() as int),
            None => !prefix@.is_prefix_of(bytes@),
        },
{
    if bytes.len() < prefix.len() {
        return None;
    }
    let mut i: usize = 0;
    while i < prefix.len()
        invariant
            i <= prefix@.len() <= bytes@.len(),
            forall|j: int| 0 <= j < i ==> bytes@[j] == prefix@[j],
        decreases prefix@.len() - i,
    {
        if bytes[i] != prefix[i] {
            assert(bytes@.subrange(0, prefix@.len() as int)[i as int] != prefix@[i as int]);
            return None;
        }
        i = i + 1;
    }
    assert(prefix@ =~= bytes@.subrange(0, prefix@.len() as int));
    Some(slice_subrange(bytes, prefix.len(), bytes.len()))
}

/// The line that a line feed ended at `end`, without its line ending.
pub fn trim_line<'a>(bytes: &'a [u8], end: usize) -> (line: &'a [u8])
    requires
        end <= bytes@.len(),
    ensures
        line@ == without_cr(bytes@.take(end as int)),
{
    if end > 0 && bytes[end - 1] == CR {
        assert(bytes@.take(end as int).drop_last() =~= bytes@.subrange(0, end - 1));
        slice_subrange(bytes, 0, end - 1)
    } else {
        slice_subrange(bytes, 0, end)
    }
}

/// Decodes the value of a field and trims it. Where the value is not valid UTF-8, the text
/// shows it by a replacement character. A line feed is in the text only if one is in the value.
pub fn decode_value(value: &[u8]) -> (result: String)
    ensures
        result@ == value_text(value@),
        !vstd::utf8::valid_utf8(value@) ==> result@.contains('\u{fffd}'),
        values::tidy(result@, !value@.contains(LF)),
{
    let decoded = text::from_utf8_lossy(value);
    proof {
        text::lemma_trimmed_twice(decoded@);
        assert('\n' as u8 == LF);
        if text::trimmed(decoded@).contains('\n') {
            assert(decoded@.contains('\n'));
        }
        if !vstd::utf8::valid_utf8(value@) {
            text::lemma_trimmed_keeps(decoded@, '\u{fffd}');
        }
    }
    decoded.trim().to_owned()
}

/// The value of a line that is a `data:` field.
pub fn strip_data_name<'a>(line: &'a [u8]) -> (value: Option<&'a [u8]>)
    ensures
        match value {
            Some(v) => data_name().is_prefix_of(line@) && v@ == line@.skip(data_name().len() as int),
            None => !data_name().is_prefix_of(line@),
        },
        value is Some <==> line@.len() >= 5 && line@.take(5) == seq![100u8, 97, 116, 97, 58],
        value matches Some(v) ==> v@ == line@.skip(5),
{
    proof {
        lemma_names();
        lemma_prefix(data_name(), line@);
    }
    strip_prefix(line, "data:".as_bytes())
}

/// Reads a line, given without its line ending. Where no line feed is in the line, none is in
/// the texts that are read.
pub fn read_line(line: &[u8]) -> (field: Field)
    ensures
        field@ == field_of(line@),
        values::tidy_field(field@, !line@.contains(LF)),
{
    assert(forall|n: int| 0 <= n <= line@.len() && !line@.contains(LF) ==> !(
    #[trigger] line@.skip(n)).contains(LF));
    if line.is_empty() {
        return Field::Blank;
    }
    if let Some(value) = strip_data_name(line) {
        return Field::Data(decode_value(value));
    }
    if let Some(value) = strip_prefix(line, "event:".as_bytes()) {
        return Field::Event(decode_value(value));
    }
    if let Some(value) = strip_prefix(line, "id:".as_bytes()) {
        return Field::Id(decode_value(value));
    }
    if let Some(value) = strip_prefix(line, ":".as_bytes()) {
        return Field::Comment(decode_value(value));
    }
    Field::Ignored
}

/// The view of a field is of the same kind and has the same text.
pub proof fn law_field_view(field: Field)
    ensures
        field is Blank ==> field@ is Blank,
        field matches Field::Data(value) ==> field@ == FieldView::Data(value@),
        field matches Field::Event(value) ==> field@ == FieldView::Event(value@),
        field matches Field::Id(value) ==> field@ == FieldView::Id(value@),
        field matches Field::Comment(value) ==> field@ == FieldView::Comment(value@),
        field is Ignored ==> field@ is Ignored,
{
}

/// The first line feed, the byte 10, ends the line, however long the line is.
pub proof fn law_line_end(content: Seq<u8>, rest: Seq<u8>)
    requires
        !content.contains(10u8),
    ensures
        line_end(content) == content.len(),
        line_end(content + seq![10u8] + rest) == content.len(),
{
    let bytes = content + seq![10u8] + rest;
    assert forall|i: int| 0 <= i < content.len() implies bytes[i] != LF && content[i] != LF by {
        assert(content.contains(content[i]));
    }
    lemma_line_end_unique(content, content.len() as int);
    lemma_line_end_unique(bytes, content.len() as int);
}

/// One carriage return, the byte 13, at the end of a line is left out, and nothing else.
pub proof fn law_without_cr(content: Seq<u8>)
    ensures
        without_cr(content.push(13u8)) == content,
        content.len() == 0 || content.last() != 13u8 ==> without_cr(content) == content,
{
    assert(content.push(13u8).drop_last() =~= content);
}

/// What a line starts with decides what it says, whatever comes behind: nothing, `data:`,
/// `event:`, `id:`, a colon, or anything else. The value is all that comes behind.
pub proof fn law_line_kinds(bytes: Seq<u8>)
    ensures
        ({
            let data = bytes.len() >= 5 && bytes.take(5) == seq![100u8, 97, 116, 97, 58];
            let event = bytes.len() >= 6 && bytes.take(6) == seq![101u8, 118, 101, 110, 116, 58];
            let id = bytes.len() >= 3 && bytes.take(3) == seq![105u8, 100, 58];
            let comment = bytes.len() >= 1 && bytes[0] == 58;
            &&& bytes.len() == 0 <==> field_of(bytes) is Blank
            &&& data <==> field_of(bytes) is Data
            &&& data ==> field_of(bytes) == FieldView::Data(value_text(bytes.skip(5)))
            &&& event <==> field_of(bytes) is Event
            &&& event ==> field_of(bytes) == FieldView::Event(value_text(bytes.skip(6)))
            &&& id <==> field_of(bytes) is Id
            &&& id ==> field_of(bytes) == FieldView::Id(value_text(bytes.skip(3)))
            &&& comment <==> field_of(bytes) is Comment
            &&& comment ==> field_of(bytes) == FieldView::Comment(value_text(bytes.skip(1)))
            &&& field_of(bytes) is Ignored <==> bytes.len() > 0 && !data && !event && !id
                && !comment
        }),
{
    lemma_names();
    lemma_prefix(data_name(), bytes);
    lemma_prefix(event_name(), bytes);
    lemma_prefix(id_name(), bytes);
    lemma_prefix(comment_mark(), bytes);
    assert(data_name()[0] == 100 && event_name()[0] == 101 && id_name()[0] == 105);
    if bytes.len() >= 1 {
        assert(bytes.take(1) =~= seq![bytes[0]]);
        assert(seq![58u8][0] == 58);
    }
}

/// What has a prefix starts with it.
pub proof fn lemma_prefix(name: Seq<u8>, bytes: Seq<u8>)
    requires
        name.len() > 0,
    ensures
        name.is_prefix_of(bytes) <==> bytes.len() >= name.len() && bytes.take(name.len() as int)
            == name,
        name.is_prefix_of(bytes) ==> bytes[0] == name[0],
{
    if bytes.len() >= name.len() {
        let start = bytes.take(name.len() as int);
        assert(start =~= bytes.subrange(0, name.len() as int));
        assert(start[0] == bytes[0]);
    }
}

/// The text of a value is its decoded text without the white space around it: all that the
/// white space encloses, however long, and nothing else.
pub proof fn law_value_text(
    value: Seq<u8>,
    front: Seq<char>,
    middle: Seq<char>,
    back: Seq<char>,
)
    requires
        forall|i: int| 0 <= i < front.len() ==> text::is_white_space(#[trigger] front[i]),
        forall|i: int| 0 <= i < back.len() ==> text::is_white_space(#[trigger] back[i]),
        middle.len() > 0 ==> !text::is_white_space(middle.first()) && !text::is_white_space(
            middle.last(),
        ),
    ensures
        vstd::utf8::valid_utf8(value) && vstd::utf8::decode_utf8(value) == front + middle + back
            ==> value_text(value) == middle,
        !vstd::utf8::valid_utf8(value) && text::replaced_utf8(value) == front + middle + back
            ==> value_text(value) == middle,
{
    text::law_trimmed(front, middle, back);
}

} // verus!
