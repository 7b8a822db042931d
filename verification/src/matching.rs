//! Where one sequence stands in another, for text and for its UTF-8 bytes.
use vstd::prelude::*;
use vstd::utf8::*;

verus! {

/// `needle` stands in `hay` at `pos`.
pub open spec fn occurs_at<T>(hay: Seq<T>, needle: Seq<T>, pos: int) -> bool {
    &&& 0 <= pos
    &&& pos + needle.len() <= hay.len()
    &&& hay.subrange(pos, pos + needle.len()) == needle
}

/// `needle` stands in `hay` at `pos`, and nowhere before.
pub open spec fn first_occurs_at<T>(hay: Seq<T>, needle: Seq<T>, pos: int) -> bool {
    &&& occurs_at(hay, needle, pos)
    &&& forall|earlier: int| 0 <= earlier < pos ==> !occurs_at(hay, needle, earlier)
}

/// `needle` stands somewhere in `hay`.
pub open spec fn occurs<T>(hay: Seq<T>, needle: Seq<T>) -> bool {
    exists|pos: int| occurs_at(hay, needle, pos)
}

/// Where `needle` first stands in `hay`, if it stands there at all.
pub open spec fn first_occurrence<T>(hay: Seq<T>, needle: Seq<T>) -> Option<int> {
    if occurs(hay, needle) {
        Some(choose|pos: int| first_occurs_at(hay, needle, pos))
    } else {
        None
    }
}

/// What follows the first place where `needle` stands in `hay`.
pub open spec fn rest_after<T>(hay: Seq<T>, needle: Seq<T>) -> Option<Seq<T>> {
    match first_occurrence(hay, needle) {
        Some(pos) => Some(hay.skip(pos + needle.len())),
        None => None,
    }
}

/// There is one first place at most.
pub proof fn lemma_first_occurrence_is<T>(hay: Seq<T>, needle: Seq<T>, pos: int)
    requires
        first_occurs_at(hay, needle, pos),
    ensures
        first_occurrence(hay, needle) == Some(pos),
        rest_after(hay, needle) == Some(hay.skip(pos + needle.len())),
{
    let chosen = choose|pos: int| first_occurs_at(hay, needle, pos);
    assert(first_occurs_at(hay, needle, chosen));
    if chosen < pos {
        assert(!occurs_at(hay, needle, chosen));
    }
    if pos < chosen {
        assert(!occurs_at(hay, needle, pos));
    }
}

/// Where `needle` stands in `hay`, there is a first place where it does, at or
/// before any other.
pub proof fn lemma_first_occurrence_exists<T>(hay: Seq<T>, needle: Seq<T>, pos: int) -> (first: int)
    requires
        occurs_at(hay, needle, pos),
    ensures
        first_occurs_at(hay, needle, first),
        first <= pos,
        first_occurrence(hay, needle) == Some(first),
    decreases pos,
{
    if exists|earlier: int| 0 <= earlier < pos && occurs_at(hay, needle, earlier) {
        let earlier = choose|earlier: int| 0 <= earlier < pos && occurs_at(hay, needle, earlier);
        lemma_first_occurrence_exists(hay, needle, earlier)
    } else {
        lemma_first_occurrence_is(hay, needle, pos);
        pos
    }
}

/// The pieces of `needles` stand in `hay` in order, each behind the end of
/// the one before it.
pub open spec fn stand_in_order<T>(needles: Seq<Seq<T>>, hay: Seq<T>) -> bool
    decreases needles.len(),
{
    needles.len() == 0 || exists|pos: int|
        #[trigger] occurs_at(hay, needles[0], pos) && stand_in_order(
            needles.drop_first(),
            hay.skip(pos + needles[0].len()),
        )
}

/// What stands in order in the end of a sequence stands in order in the whole.
pub proof fn lemma_stand_in_order_in_longer<T>(needles: Seq<Seq<T>>, hay: Seq<T>, skipped: int)
    requires
        0 <= skipped <= hay.len(),
        stand_in_order(needles, hay.skip(skipped)),
    ensures
        stand_in_order(needles, hay),
{
    if needles.len() > 0 {
        let end = hay.skip(skipped);
        let pos = choose|pos: int|
            #[trigger] occurs_at(end, needles[0], pos) && stand_in_order(
                needles.drop_first(),
                end.skip(pos + needles[0].len()),
            );
        let len = needles[0].len();
        assert(hay.subrange(skipped + pos, skipped + pos + len) =~= end.subrange(pos, pos + len));
        assert(hay.skip(skipped + pos + len) =~= end.skip(pos + len));
        assert(occurs_at(hay, needles[0], skipped + pos));
    }
}

/// The bytes of two texts in a row are the bytes of the one, then of the other.
pub proof fn lemma_encode_concat(front: Seq<char>, back: Seq<char>)
    ensures
        encode_utf8(front + back) == encode_utf8(front) + encode_utf8(back),
    decreases front.len(),
{
    if front.len() == 0 {
        assert(front + back =~= back);
        assert(encode_utf8(front) + encode_utf8(back) =~= encode_utf8(back));
    } else {
        assert((front + back).drop_first() =~= front.drop_first() + back);
        lemma_encode_concat(front.drop_first(), back);
        assert(encode_utf8(front + back) =~= encode_utf8(front) + encode_utf8(back));
    }
}

/// Every character takes at least one byte.
pub proof fn lemma_encode_len(chars: Seq<char>)
    ensures
        encode_utf8(chars).len() >= chars.len(),
    decreases chars.len(),
{
    if chars.len() > 0 {
        lemma_encode_len(chars.drop_first());
    }
}

/// Where `needle` stands in `hay` as text, its bytes stand in the bytes of
/// `hay`, behind the bytes of what comes before.
pub proof fn lemma_text_match_is_byte_match(hay: Seq<char>, needle: Seq<char>, pos: int)
    requires
        occurs_at(hay, needle, pos),
    ensures
        occurs_at(encode_utf8(hay), encode_utf8(needle), encode_utf8(hay.take(pos)).len() as int),
{
    let front = hay.take(pos);
    let back = hay.skip(pos + needle.len());
    assert(hay =~= front + needle + back);
    lemma_encode_concat(front + needle, back);
    lemma_encode_concat(front, needle);
    let at = encode_utf8(front).len() as int;
    assert(encode_utf8(hay).subrange(at, at + encode_utf8(needle).len()) =~= encode_utf8(needle));
}

/// A longer beginning of a text has more bytes.
pub proof fn lemma_encode_take_grows(chars: Seq<char>, shorter: int, longer: int)
    requires
        0 <= shorter < longer <= chars.len(),
    ensures
        encode_utf8(chars.take(shorter)).len() < encode_utf8(chars.take(longer)).len(),
{
    let between = chars.subrange(shorter, longer);
    assert(chars.take(longer) =~= chars.take(shorter) + between);
    lemma_encode_concat(chars.take(shorter), between);
    lemma_encode_len(between);
}

/// Where the bytes of `needle` first stand in the bytes of `hay`, `needle`
/// first stands in `hay` as text, and what follows is the same text.
pub proof fn lemma_first_byte_match_is_first_text_match(
    hay: Seq<char>,
    needle: Seq<char>,
    pos: int,
) -> (at: int)
    requires
        first_occurs_at(encode_utf8(hay), encode_utf8(needle), pos),
    ensures
        first_occurs_at(hay, needle, at),
        encode_utf8(hay.take(at)).len() == pos,
        is_char_boundary(encode_utf8(hay), pos + encode_utf8(needle).len()),
        decode_utf8(encode_utf8(hay).skip(pos + encode_utf8(needle).len())) == hay.skip(
            at + needle.len(),
        ),
{
    let bytes = encode_utf8(hay);
    let pattern = encode_utf8(needle);
    encode_utf8_valid_utf8(hay);
    encode_utf8_valid_utf8(needle);
    encode_utf8_decode_utf8(hay);
    encode_utf8_decode_utf8(needle);
    if pattern.len() == 0 {
        assert(bytes.subrange(0, 0) =~= pattern);
        assert(occurs_at(bytes, pattern, 0));
    }
    lemma_match_lies_between_characters(bytes, pattern, pos);
    let end = pos + pattern.len();
    let front = bytes.subrange(0, pos);
    let tail = bytes.subrange(pos, bytes.len() as int);
    let back = bytes.subrange(end, bytes.len() as int);
    valid_utf8_split(bytes, pos);
    decode_utf8_split(bytes, pos);
    assert(tail.subrange(0, pattern.len() as int) =~= pattern);
    assert(tail.subrange(pattern.len() as int, tail.len() as int) =~= back);
    lemma_valid_prefix_ends_at_boundary(tail, pattern.len() as int);
    valid_utf8_split(tail, pattern.len() as int);
    decode_utf8_split(tail, pattern.len() as int);
    let before = decode_utf8(front);
    let after = decode_utf8(back);
    assert(hay =~= before + (needle + after));
    let at = before.len() as int;
    assert(hay.subrange(at, at + needle.len()) =~= needle);
    assert(hay.skip(at + needle.len()) =~= after);
    assert(bytes.skip(end) =~= back);
    assert(hay.take(at) =~= before);
    decode_utf8_encode_utf8(front);
    assert forall|earlier: int| 0 <= earlier < at implies !occurs_at(hay, needle, earlier) by {
        if occurs_at(hay, needle, earlier) {
            lemma_text_match_is_byte_match(hay, needle, earlier);
            lemma_encode_take_grows(hay, earlier, at);
        }
    }
    at
}

/// Where the bytes of `needle` stand nowhere in the bytes of `hay`, `needle`
/// stands nowhere in `hay` as text.
pub proof fn lemma_no_byte_match_is_no_text_match(hay: Seq<char>, needle: Seq<char>)
    requires
        !occurs(encode_utf8(hay), encode_utf8(needle)),
    ensures
        !occurs(hay, needle),
        first_occurrence(hay, needle) is None,
        rest_after(hay, needle) is None,
{
    assert forall|pos: int| !occurs_at(hay, needle, pos) by {
        if occurs_at(hay, needle, pos) {
            lemma_text_match_is_byte_match(hay, needle, pos);
        }
    }
}

/// The bytes up to `len` are text of their own, so text ends at `len`.
pub proof fn lemma_valid_prefix_ends_at_boundary(whole: Seq<u8>, len: int)
    requires
        valid_utf8(whole),
        0 <= len <= whole.len(),
        valid_utf8(whole.subrange(0, len)),
    ensures
        is_char_boundary(whole, len),
    decreases whole.len(),
{
    if len != 0 {
        let prefix = whole.subrange(0, len);
        let first = length_of_first_scalar(whole);
        assert(prefix[0] == whole[0]);
        assert(first == length_of_first_scalar(prefix));
        assert(first <= len);
        assert(pop_first_scalar(prefix) =~= pop_first_scalar(whole).subrange(0, len - first));
        lemma_valid_prefix_ends_at_boundary(pop_first_scalar(whole), len - first);
    }
}

/// A place where text stands in text, byte for byte, begins and ends between
/// characters.
pub proof fn lemma_match_lies_between_characters(hay: Seq<u8>, needle: Seq<u8>, pos: int)
    requires
        valid_utf8(hay),
        valid_utf8(needle),
        occurs_at(hay, needle, pos),
        needle.len() > 0 || pos == 0,
    ensures
        is_char_boundary(hay, pos),
        is_char_boundary(hay, pos + needle.len()),
{
    is_char_boundary_start_end_of_seq(hay);
    if needle.len() > 0 {
        is_char_boundary_start_end_of_seq(needle);
        is_char_boundary_iff_not_is_continuation_byte(needle, 0);
        assert(hay.subrange(pos, pos + needle.len())[0] == needle[0]);
        is_char_boundary_iff_not_is_continuation_byte(hay, pos);
        let tail = hay.subrange(pos, hay.len() as int);
        valid_utf8_split(hay, pos);
        assert(tail.subrange(0, needle.len() as int) =~= needle);
        lemma_valid_prefix_ends_at_boundary(tail, needle.len() as int);
        if pos + needle.len() < hay.len() {
            is_char_boundary_iff_not_is_continuation_byte(tail, needle.len() as int);
            is_char_boundary_iff_not_is_continuation_byte(hay, pos + needle.len());
        }
    }
}

} // verus!
