//! Text: decoding of field values, trimming, joining, comparing.

use vstd::prelude::*;
use vstd::string::*;

verus! {

/// The characters with the Unicode property `White_Space`.
pub open spec fn is_white_space(c: char) -> bool {
    ||| '\u{9}' <= c <= '\u{d}'
    ||| c == ' '
    ||| c == '\u{85}'
    ||| c == '\u{a0}'
    ||| c == '\u{1680}'
    ||| '\u{2000}' <= c <= '\u{200a}'
    ||| c == '\u{2028}'
    ||| c == '\u{2029}'
    ||| c == '\u{202f}'
    ||| c == '\u{205f}'
    ||| c == '\u{3000}'
}

/// `text` without the white space at its start.
pub open spec fn trimmed_start(text: Seq<char>) -> Seq<char>
    decreases text.len(),
{
    if text.len() > 0 && is_white_space(text.first()) {
        trimmed_start(text.drop_first())
    } else {
        text
    }
}

/// `text` without the white space at its end.
pub open spec fn trimmed_end(text: Seq<char>) -> Seq<char>
    decreases text.len(),
{
    if text.len() > 0 && is_white_space(text.last()) {
        trimmed_end(text.drop_last())
    } else {
        text
    }
}

/// `text` without the white space at either end.
pub open spec fn trimmed(text: Seq<char>) -> Seq<char> {
    trimmed_end(trimmed_start(text))
}

/// The contract of `str::trim`: leading and trailing white space, in the sense of the Unicode
/// property `White_Space`, is left out, and nothing else.
pub assume_specification[ str::trim ](s: &str) -> (result: &str)
    ensures
        result@ == trimmed(s@),
;

/// What `String::from_utf8_lossy` makes of bytes that are not valid UTF-8.
pub uninterp spec fn replaced_utf8(bytes: Seq<u8>) -> Seq<char>;

/// The text that `bytes` stand for, with `replaced` in case they are not valid UTF-8.
pub open spec fn utf8_or(bytes: Seq<u8>, replaced: Seq<char>) -> Seq<char> {
    if vstd::utf8::valid_utf8(bytes) {
        vstd::utf8::decode_utf8(bytes)
    } else {
        replaced
    }
}

/// Calls `String::from_utf8_lossy`. Valid UTF-8 is decoded. Of other input the contract says
/// that the result is a function of the bytes and holds at least one replacement character; how
/// many there are, and where, is left unsaid. Since nothing but replacement characters is
/// brought in, each ASCII character of the result is a byte of the input.
#[verifier::external_body]
pub(crate) fn from_utf8_lossy(bytes: &[u8]) -> (text: String)
    ensures
        text@ == utf8_or(bytes@, replaced_utf8(bytes@)),
        !vstd::utf8::valid_utf8(bytes@) ==> text@.contains('\u{fffd}'),
        forall|c: char| #[trigger] text@.contains(c) && c < '\u{80}' ==> bytes@.contains(c as u8),
{
    String::from_utf8_lossy(bytes).into_owned()
}

/// Trimming keeps what is not white space.
pub proof fn lemma_trimmed_keeps(text: Seq<char>, c: char)
    requires
        text.contains(c),
        !is_white_space(c),
    ensures
        trimmed(text).contains(c),
{
    lemma_trimmed_start_keeps(text, c);
    lemma_trimmed_end_keeps(trimmed_start(text), c);
}

proof fn lemma_trimmed_start_keeps(text: Seq<char>, c: char)
    requires
        text.contains(c),
        !is_white_space(c),
    ensures
        trimmed_start(text).contains(c),
    decreases text.len(),
{
    if is_white_space(text.first()) {
        let at = text.index_of(c);
        assert(text.drop_first()[at - 1] == c);
        lemma_trimmed_start_keeps(text.drop_first(), c);
    }
}

proof fn lemma_trimmed_end_keeps(text: Seq<char>, c: char)
    requires
        text.contains(c),
        !is_white_space(c),
    ensures
        trimmed_end(text).contains(c),
    decreases text.len(),
{
    if is_white_space(text.last()) {
        let at = text.index_of(c);
        assert(text.drop_last()[at] == c);
        lemma_trimmed_end_keeps(text.drop_last(), c);
    }
}

/// What is trimmed at its start is the end of the text, and does not start with white space.
proof fn lemma_trimmed_start(text: Seq<char>)
    ensures
        ({
            let result = trimmed_start(text);
            &&& result.len() <= text.len()
            &&& result == text.skip(text.len() - result.len())
            &&& result.len() > 0 ==> !is_white_space(result.first())
        }),
    decreases text.len(),
{
    if text.len() > 0 && is_white_space(text.first()) {
        lemma_trimmed_start(text.drop_first());
        let n = text.len() - trimmed_start(text).len();
        assert(text.drop_first().skip(n - 1) =~= text.skip(n));
    } else {
        assert(text.skip(0) =~= text);
    }
}

/// What is trimmed at its end is the start of the text, and does not end with white space.
proof fn lemma_trimmed_end(text: Seq<char>)
    ensures
        ({
            let result = trimmed_end(text);
            &&& result.len() <= text.len()
            &&& result == text.take(result.len() as int)
            &&& result.len() > 0 ==> !is_white_space(result.last())
        }),
    decreases text.len(),
{
    if text.len() > 0 && is_white_space(text.last()) {
        lemma_trimmed_end(text.drop_last());
        let n = trimmed_end(text).len() as int;
        assert(text.drop_last().take(n) =~= text.take(n));
    } else {
        assert(text.take(text.len() as int) =~= text);
    }
}

/// Trimming twice is trimming once, and brings in nothing new.
pub proof fn lemma_trimmed_twice(text: Seq<char>)
    ensures
        trimmed(trimmed(text)) == trimmed(text),
        forall|c: char| trimmed(text).contains(c) ==> text.contains(c),
{
    let start = trimmed_start(text);
    let result = trimmed(text);
    lemma_trimmed_start(text);
    lemma_trimmed_end(start);
    if result.len() > 0 {
        assert(result.first() == start.first());
    }
    assert forall|c: char| result.contains(c) implies text.contains(c) by {
        let at = result.index_of(c);
        assert(text[at + text.len() - start.len()] == start[at]);
        assert(start[at] == result[at]);
    }
}

/// The texts of a list of strings.
pub open spec fn texts(list: Seq<String>) -> Seq<Seq<char>> {
    list.map_values(|s: String| s@)
}

/// The text of an optional string.
pub open spec fn optional(text: Option<String>) -> Option<Seq<char>> {
    match text {
        Some(s) => Some(s@),
        None => None,
    }
}

/// `parts`, with a line feed between each and the next.
pub open spec fn joined(parts: Seq<Seq<char>>) -> Seq<char>
    decreases parts.len(),
{
    if parts.len() == 0 {
        Seq::empty()
    } else if parts.len() == 1 {
        parts[0]
    } else {
        joined(parts.drop_last()) + seq!['\n'] + parts.last()
    }
}

/// Joins `parts` with a line feed between each and the next. Each part stands unchanged in the
/// result, behind all parts in front of it and as many line feeds.
pub fn join_lines(parts: &Vec<String>) -> (result: String)
    ensures
        result@ == joined(texts(parts@)),
        parts@.len() > 0 ==> result@.len() == texts(parts@).flatten().len() + parts@.len() - 1,
        forall|k: int|
            #![trigger parts@[k]]
            0 <= k < parts@.len() ==> ({
                let start = texts(parts@).take(k).flatten().len() + k;
                result@.subrange(start, start + parts@[k]@.len()) == parts@[k]@
            }),
{
    proof {
        law_texts(parts@);
        law_joined_len(texts(parts@));
        assert forall|k: int|
            #![trigger parts@[k]]
            0 <= k < parts@.len() implies ({
            let start = texts(parts@).take(k).flatten().len() + k;
            joined(texts(parts@)).subrange(start, start + parts@[k]@.len()) == parts@[k]@
        }) by {
            law_joined_part(texts(parts@), k);
        }
    }
    let mut result = String::new();
    let ghost all = texts(parts@);
    let mut i: usize = 0;
    while i < parts.len()
        invariant
            i <= parts.len(),
            all == texts(parts@),
            result@ == joined(all.take(i as int)),
        decreases parts.len() - i,
    {
        proof {
            assert(all.take(i + 1).drop_last() =~= all.take(i as int));
            reveal_strlit("\n");
            assert("\n"@ =~= seq!['\n']);
        }
        if i > 0 {
            result.append("\n");
        }
        result.append(parts[i].as_str());
        assert(result@ =~= joined(all.take(i + 1)));
        i = i + 1;
    }
    assert(all.take(i as int) =~= all);
    result
}

/// Whether two texts are the same.
pub fn same_text(a: &str, b: &str) -> (same: bool)
    ensures
        same == (a@ == b@),
{
    a.to_owned() == b.to_owned()
}

/// Joining adds one line feed between each part and the next, and loses nothing: the result is
/// as long as all parts together and the line feeds between them.
pub proof fn law_joined_len(parts: Seq<Seq<char>>)
    ensures
        parts.len() == 0 ==> joined(parts).len() == 0,
        parts.len() > 0 ==> joined(parts).len() == parts.flatten().len() + parts.len() - 1,
    decreases parts.len(),
{
    if parts.len() == 1 {
        parts.lemma_flatten_one_element();
    } else if parts.len() > 1 {
        let front = parts.drop_last();
        law_joined_len(front);
        front.lemma_flatten_push(parts.last());
        assert(front.push(parts.last()) =~= parts);
    }
}

/// Each part stands unchanged in the joined text, behind all parts in front of it and the line
/// feeds between them, the last of which is right in front of it.
pub proof fn law_joined_part(parts: Seq<Seq<char>>, k: int)
    requires
        0 <= k < parts.len(),
    ensures
        ({
            let start = parts.take(k).flatten().len() + k;
            let end = start + parts[k].len();
            &&& end <= joined(parts).len()
            &&& joined(parts).subrange(start, end) == parts[k]
            &&& k > 0 ==> joined(parts)[start - 1] == '\n'
            &&& k < parts.len() - 1 ==> end < joined(parts).len() && joined(parts)[end] == '\n'
        }),
    decreases parts.len(),
{
    let start = parts.take(k).flatten().len() + k;
    let end = start + parts[k].len();
    if parts.len() == 1 {
        assert(parts.take(0) =~= Seq::empty());
        assert(joined(parts).subrange(start, end) =~= parts[k]);
    } else {
        let front = parts.drop_last();
        law_joined_len(front);
        if k < parts.len() - 1 {
            law_joined_part(front, k);
            assert(front.take(k) =~= parts.take(k));
            assert(joined(parts).subrange(start, end) =~= joined(front).subrange(start, end));
            if k == parts.len() - 2 {
                assert(front =~= parts.take(k).push(parts[k]));
                parts.take(k).lemma_flatten_push(parts[k]);
            }
        } else {
            assert(parts.take(k) =~= front);
            assert(joined(parts).subrange(start, end) =~= parts[k]);
        }
    }
}

/// The texts of a list of strings are as many as the strings, and in their order.
pub proof fn law_texts(list: Seq<String>)
    ensures
        texts(list).len() == list.len(),
        forall|i: int| 0 <= i < list.len() ==> #[trigger] texts(list)[i] == list[i]@,
{
}

/// The text of an optional string is there exactly if the string is, and is its text.
pub proof fn law_optional(s: String)
    ensures
        optional(Some(s)) == Some(s@),
        optional(None) == None::<Seq<char>>,
{
}

/// White space around a text is trimmed away, whatever its amount, and what it encloses stays as
/// it is.
pub proof fn law_trimmed(front: Seq<char>, middle: Seq<char>, back: Seq<char>)
    requires
        forall|i: int| 0 <= i < front.len() ==> is_white_space(#[trigger] front[i]),
        forall|i: int| 0 <= i < back.len() ==> is_white_space(#[trigger] back[i]),
        middle.len() > 0 ==> !is_white_space(middle.first()) && !is_white_space(middle.last()),
    ensures
        trimmed(front + middle + back) == middle,
{
    assert(front + middle + back =~= front + (middle + back));
    lemma_trimmed_front(front, middle + back);
    if middle.len() > 0 {
        assert((middle + back).first() == middle.first());
        lemma_trimmed_back(middle, back);
    } else {
        assert(middle + back =~= back + middle);
        lemma_trimmed_front(back, middle);
    }
}

/// White space in front of a text makes no difference to trimming its start.
proof fn lemma_trimmed_front(front: Seq<char>, rest: Seq<char>)
    requires
        forall|i: int| 0 <= i < front.len() ==> is_white_space(#[trigger] front[i]),
    ensures
        trimmed_start(front + rest) == trimmed_start(rest),
    decreases front.len(),
{
    if front.len() > 0 {
        assert(is_white_space(front[0]));
        assert((front + rest).drop_first() =~= front.drop_first() + rest);
        assert forall|i: int| 0 <= i < front.drop_first().len() implies is_white_space(
            #[trigger] front.drop_first()[i],
        ) by {
            assert(is_white_space(front[i + 1]));
        }
        lemma_trimmed_front(front.drop_first(), rest);
    } else {
        assert(front + rest =~= rest);
    }
}

/// White space behind a text makes no difference to trimming its end.
proof fn lemma_trimmed_back(rest: Seq<char>, back: Seq<char>)
    requires
        forall|i: int| 0 <= i < back.len() ==> is_white_space(#[trigger] back[i]),
    ensures
        trimmed_end(rest + back) == trimmed_end(rest),
    decreases back.len(),
{
    if back.len() > 0 {
        assert(is_white_space(back[back.len() - 1]));
        assert((rest + back).drop_last() =~= rest + back.drop_last());
        lemma_trimmed_back(rest, back.drop_last());
    } else {
        assert(rest + back =~= rest);
    }
}

/// The code points of white space: tab to carriage return, space, next line, no-break space, the
/// Ogham space mark, the spaces from en quad to hair space, the line and paragraph separators,
/// the narrow no-break space, the medium mathematical space and the ideographic space.
pub proof fn law_white_space(c: char)
    ensures
        is_white_space(c) <==> {
            let code = c as u32;
            ||| 9 <= code <= 13
            ||| code == 32 || code == 133 || code == 160 || code == 5760
            ||| 8192 <= code <= 8202
            ||| code == 8232 || code == 8233 || code == 8239 || code == 8287 || code == 12288
        },
{
}

} // verus!
