//! The song title inside a block of stream metadata.
//!
//! A block is text padded with NUL characters. Its parts are separated by
//! semicolons, and the part that carries the title reads `StreamTitle='...'`.

use vstd::prelude::*;

use crate::text::{begins_with, chars_of, find_char};
#[allow(unused_imports)]
use crate::text::{first_of, lemma_first_of};

verus! {

/// A text without the NUL characters at its beginning.
pub open spec fn trim_start(text: Seq<char>) -> Seq<char>
    decreases text.len(),
{
    if text.len() > 0 && text[0] == '\0' {
        trim_start(text.skip(1))
    } else {
        text
    }
}

/// A text without the NUL characters at its end.
pub open spec fn trim_end(text: Seq<char>) -> Seq<char>
    decreases text.len(),
{
    if text.len() > 0 && text.last() == '\0' {
        trim_end(text.drop_last())
    } else {
        text
    }
}

/// The parts of a text that a separator parts from each other.
pub open spec fn split_on(text: Seq<char>, separator: char) -> Seq<Seq<char>>
    decreases text.len(),
{
    let end = first_of(text, separator) as int;
    if end < text.len() {
        seq![text.take(end)] + split_on(text.skip(end + 1), separator)
    } else {
        seq![text]
    }
}

/// The title that one part gives: what stands between the quotes, if the part
/// opens with the title's key and the quote is closed.
pub open spec fn title_in_part(part: Seq<char>) -> Option<Seq<char>> {
    let key = "StreamTitle='"@;
    if key.is_prefix_of(part) {
        let rest = part.skip(key.len() as int);
        let end = first_of(rest, '\'') as int;
        if end < rest.len() {
            Some(rest.take(end))
        } else {
            None
        }
    } else {
        None
    }
}

/// The title that the first of several parts to give one gives.
pub open spec fn first_title(parts: Seq<Seq<char>>) -> Option<Seq<char>>
    decreases parts.len(),
{
    if parts.len() == 0 {
        None
    } else {
        match title_in_part(parts[0]) {
            Some(title) => Some(title),
            None => first_title(parts.skip(1)),
        }
    }
}

/// The title in the text of a metadata block.
pub open spec fn title_of(text: Seq<char>) -> Option<Seq<char>> {
    first_title(split_on(trim_end(trim_start(text)), ';'))
}

/// Finds the title in the text of a metadata block.
pub fn title_in_text(text: &str) -> (title: Option<String>)
    ensures
        match title {
            Some(found) => title_of(text@) == Some(found@),
            None => title_of(text@) is None,
        },
{
    let chars: Vec<char> = chars_of(text);
    let key: Vec<char> = chars_of("StreamTitle='");
    let mut lo: usize = 0;
    assert(chars@.skip(0) =~= chars@);
    while lo < chars.len() && chars[lo] == '\0'
        invariant
            lo <= chars.len(),
            trim_start(chars@) == trim_start(chars@.skip(lo as int)),
        decreases chars.len() - lo,
    {
        assert(chars@.skip(lo as int).skip(1) =~= chars@.skip(lo + 1));
        lo = lo + 1;
    }
    let mut hi: usize = chars.len();
    assert(chars@.subrange(lo as int, hi as int) =~= chars@.skip(lo as int));
    while lo < hi && chars[hi - 1] == '\0'
        invariant
            lo <= hi <= chars.len(),
            trim_end(trim_start(chars@)) == trim_end(chars@.subrange(lo as int, hi as int)),
        decreases hi - lo,
    {
        assert(chars@.subrange(lo as int, hi as int).drop_last() =~= chars@.subrange(
            lo as int,
            hi - 1,
        ));
        hi = hi - 1;
    }
    let mut at: usize = lo;
    loop
        invariant
            chars@ == text@,
            key@ == "StreamTitle='"@,
            at <= hi <= chars.len(),
            title_of(text@) == first_title(split_on(chars@.subrange(at as int, hi as int), ';')),
        decreases hi - at,
    {
        let end: usize = find_char(&chars, at, hi, ';');
        let ghost rest = chars@.subrange(at as int, hi as int);
        let ghost part = chars@.subrange(at as int, end as int);
        assert(rest.take(end - at) =~= part);
        let ghost parts = split_on(rest, ';');
        assert(parts[0] == part);
        if begins_with(&chars, at, end, &key) {
            let from: usize = at + key.len();
            assert(part.skip(key@.len() as int) =~= chars@.subrange(from as int, end as int));
            let close: usize = find_char(&chars, from, end, '\'');
            if close < end {
                assert(part.skip(key@.len() as int).take(close - from) =~= text@.subrange(
                    from as int,
                    close as int,
                ));
                return Some(text.substring_char(from, close).to_owned());
            }
        }
        assert(title_in_part(part) is None);
        assert(first_title(parts) == first_title(parts.skip(1)));
        if end == hi {
            assert(parts.skip(1) =~= Seq::empty());
            assert(first_title(parts.skip(1)) is None);
            return None;
        }
        assert(rest.skip(end - at + 1) =~= chars@.subrange(end + 1, hi as int));
        assert(parts.skip(1) =~= split_on(chars@.subrange(end + 1, hi as int), ';'));
        at = end + 1;
    }
}

/// The text that `String::from_utf8_lossy` makes of bytes that are not UTF-8, with
/// a replacement character for what it cannot decode.
pub uninterp spec fn repaired_utf8(bytes: Seq<u8>) -> Seq<char>;

/// `String::from_utf8_lossy`: bytes that are UTF-8 are decoded; of others it makes
/// a text that the bytes alone determine.
#[verifier::external_body]
fn decode_lossy(bytes: &[u8]) -> (text: String)
    ensures
        text@ == (if vstd::utf8::valid_utf8(bytes@) {
            vstd::utf8::decode_utf8(bytes@)
        } else {
            repaired_utf8(bytes@)
        }),
{
    String::from_utf8_lossy(bytes).into_owned()
}

/// The text of a metadata block.
pub open spec fn block_text(block: Seq<u8>) -> Seq<char> {
    if vstd::utf8::valid_utf8(block) {
        vstd::utf8::decode_utf8(block)
    } else {
        repaired_utf8(block)
    }
}

/// Finds the title in a metadata block.
pub fn parse_title(block: &[u8]) -> (title: Option<String>)
    ensures
        match title {
            Some(found) => title_of(block_text(block@)) == Some(found@),
            None => title_of(block_text(block@)) is None,
        },
{
    let text: String = decode_lossy(block);
    title_in_text(text.as_str())
}

proof fn lemma_trim_end(text: Seq<char>, at: int)
    requires
        0 <= at < text.len(),
        text[at] != '\0',
    ensures
        at < trim_end(text).len() <= text.len(),
        trim_end(text) == text.take(trim_end(text).len() as int),
    decreases text.len(),
{
    if text.last() == '\0' {
        lemma_trim_end(text.drop_last(), at);
        let len = trim_end(text).len() as int;
        assert(text.drop_last().take(len) =~= text.take(len));
    } else {
        assert(text.take(text.len() as int) =~= text);
    }
}

proof fn lemma_encode_concat(a: Seq<char>, b: Seq<char>)
    ensures
        vstd::utf8::encode_utf8(a + b) == vstd::utf8::encode_utf8(a) + vstd::utf8::encode_utf8(b),
    decreases a.len(),
{
    if a.len() == 0 {
        assert(a + b =~= b);
        assert(vstd::utf8::encode_utf8(a) + vstd::utf8::encode_utf8(b) =~= vstd::utf8::encode_utf8(b));
    } else {
        lemma_encode_concat(a.drop_first(), b);
        assert((a + b).drop_first() =~= a.drop_first() + b);
        assert(vstd::utf8::encode_utf8(a + b) =~= vstd::utf8::encode_utf8(a)
            + vstd::utf8::encode_utf8(b));
    }
}

/// So many NUL characters.
pub open spec fn nuls(count: nat) -> Seq<char> {
    Seq::new(count, |i: int| '\0')
}

/// So many zero bytes.
pub open spec fn zeros(count: nat) -> Seq<u8> {
    Seq::new(count, |i: int| 0u8)
}

proof fn lemma_encode_nuls(count: nat)
    ensures
        vstd::utf8::encode_utf8(nuls(count)) == zeros(count),
    decreases count,
{
    if count > 0 {
        lemma_encode_nuls((count - 1) as nat);
        assert(nuls(count).drop_first() =~= nuls((count - 1) as nat));
        assert((0u32 & 0x7F) as u8 == 0u8) by (bit_vector);
    }
    assert(vstd::utf8::encode_utf8(nuls(count)) =~= zeros(count));
}

proof fn lemma_trim_start_padding(count: nat, text: Seq<char>)
    ensures
        trim_start(nuls(count) + text) == trim_start(text),
    decreases count,
{
    if count > 0 {
        lemma_trim_start_padding((count - 1) as nat, text);
        assert((nuls(count) + text).skip(1) =~= nuls((count - 1) as nat) + text);
    } else {
        assert(nuls(count) + text =~= text);
    }
}

proof fn lemma_trim_end_padding(text: Seq<char>, count: nat)
    ensures
        trim_end(text + nuls(count)) == trim_end(text),
    decreases count,
{
    if count > 0 {
        lemma_trim_end_padding(text, (count - 1) as nat);
        assert((text + nuls(count)).drop_last() =~= text + nuls((count - 1) as nat));
    } else {
        assert(text + nuls(count) =~= text);
    }
}

proof fn lemma_trim_padding_behind(text: Seq<char>, count: nat)
    ensures
        trim_end(trim_start(text + nuls(count))) == trim_end(trim_start(text)),
    decreases text.len(),
{
    if text.len() == 0 {
        lemma_trim_start_padding(count, text);
        assert(text + nuls(count) =~= nuls(count) + text);
    } else if text[0] == '\0' {
        lemma_trim_padding_behind(text.skip(1), count);
        assert((text + nuls(count)).skip(1) =~= text.skip(1) + nuls(count));
    } else {
        lemma_trim_end_padding(text, count);
    }
}

/// Padding with NUL characters, before a text and behind it, does not change the
/// title that the text gives.
pub proof fn padding_changes_no_title(before: nat, text: Seq<char>, behind: nat)
    ensures
        title_of(nuls(before) + text + nuls(behind)) == title_of(text),
{
    lemma_trim_padding_behind(nuls(before) + text, behind);
    lemma_trim_start_padding(before, text);
}

/// The same of the bytes of a block that is UTF-8: zero bytes before it and behind it
/// do not change the title that is found.
pub proof fn padding_changes_no_title_in_bytes(before: nat, block: Seq<u8>, behind: nat)
    requires
        vstd::utf8::valid_utf8(block),
    ensures
        title_of(block_text(zeros(before) + block + zeros(behind))) == title_of(block_text(block)),
{
    let text = vstd::utf8::decode_utf8(block);
    let padded = nuls(before) + text + nuls(behind);
    vstd::utf8::decode_utf8_encode_utf8(block);
    lemma_encode_concat(nuls(before) + text, nuls(behind));
    lemma_encode_concat(nuls(before), text);
    lemma_encode_nuls(before);
    lemma_encode_nuls(behind);
    vstd::utf8::encode_utf8_valid_utf8(padded);
    vstd::utf8::encode_utf8_decode_utf8(padded);
    padding_changes_no_title(before, text, behind);
}

/// The text of a metadata block that announces a title, and whatever follows.
pub open spec fn announcement(title: Seq<char>, more: Seq<char>) -> Seq<char> {
    "StreamTitle='"@ + title + seq!['\''] + more
}

/// A title that a station announces is the title that is found, whatever else the
/// block holds behind it and whatever the padding, as long as the title itself
/// holds neither a quote nor a semicolon.
pub proof fn announced_title_is_found(title: Seq<char>, more: Seq<char>, padding: nat)
    requires
        !title.contains('\''),
        !title.contains(';'),
    ensures
        title_of(announcement(title, more) + nuls(padding)) == Some(title),
{
    let key = "StreamTitle='"@;
    reveal_strlit("StreamTitle='");
    let text = announcement(title, more) + nuls(padding);
    let quote = (key.len() + title.len()) as int;
    assert(text[0] == 'S');
    assert(text[quote] == '\'');
    lemma_trim_end(text, quote);
    let trimmed = trim_end(text);
    assert forall|i: int| 0 <= i < quote implies trimmed[i] == (key + title)[i] by {}
    lemma_first_of(trimmed, ';');
    assert forall|i: int| 0 <= i <= quote implies trimmed[i] != ';' by {
        if key.len() <= i < quote {
            assert(title[i - key.len()] == trimmed[i]);
        }
    }
    let end = first_of(trimmed, ';') as int;
    assert(end > quote);
    let part = trimmed.take(end);
    assert(split_on(trimmed, ';')[0] =~= part);
    assert(key =~= part.subrange(0, key.len() as int));
    let rest = part.skip(key.len() as int);
    lemma_first_of(rest, '\'');
    assert(rest[title.len() as int] == '\'');
    assert forall|i: int| 0 <= i < title.len() implies rest[i] != '\'' by {
        assert(rest[i] == title[i]);
    }
    assert(first_of(rest, '\'') == title.len());
    assert(rest.take(title.len() as int) =~= title);
}

/// The same of the bytes of the block: encoded as UTF-8 and padded with zero
/// bytes, the announcement gives back the title.
pub proof fn announced_title_is_found_in_bytes(title: Seq<char>, more: Seq<char>, padding: nat)
    requires
        !title.contains('\''),
        !title.contains(';'),
    ensures
        title_of(
            block_text(
                vstd::utf8::encode_utf8(announcement(title, more)) + zeros(padding),
            ),
        ) == Some(title),
{
    let text = announcement(title, more) + nuls(padding);
    lemma_encode_concat(announcement(title, more), nuls(padding));
    lemma_encode_nuls(padding);
    vstd::utf8::encode_utf8_valid_utf8(text);
    vstd::utf8::encode_utf8_decode_utf8(text);
    announced_title_is_found(title, more, padding);
}

/// Whether a title is announced at a place of a text: at the beginning, NUL characters
/// aside, or right behind a semicolon stands the title's key, and then up to `end`, where
/// a quote stands, neither quote nor semicolon.
pub open spec fn announces(text: Seq<char>, at: int, end: int) -> bool {
    let from = at + "StreamTitle='"@.len();
    &&& 0 <= at
    &&& from <= end < text.len()
    &&& (forall|i: int| 0 <= i < at ==> text[i] == '\0') || (at > 0 && text[at - 1] == ';')
    &&& text.subrange(at, from) == "StreamTitle='"@
    &&& text[end] == '\''
    &&& forall|i: int| from <= i < end ==> text[i] != '\'' && text[i] != ';'
}

/// The same in a text without padding.
spec fn announces_bare(text: Seq<char>, at: int, end: int) -> bool {
    let from = at + "StreamTitle='"@.len();
    &&& 0 <= at
    &&& from <= end < text.len()
    &&& at == 0 || text[at - 1] == ';'
    &&& text.subrange(at, from) == "StreamTitle='"@
    &&& text[end] == '\''
    &&& forall|i: int| from <= i < end ==> text[i] != '\'' && text[i] != ';'
}

/// The part before the first semicolon gives the title that is announced at the
/// beginning.
proof fn lemma_first_part(text: Seq<char>)
    ensures
        match title_in_part(text.take(first_of(text, ';') as int)) {
            Some(title) => exists|end: int| #[trigger]
                announces_bare(text, 0, end) && title == text.subrange(
                    "StreamTitle='"@.len() as int,
                    end,
                ),
            None => forall|end: int| !#[trigger] announces_bare(text, 0, end),
        },
{
    let key = "StreamTitle='"@;
    let n = key.len() as int;
    reveal_strlit("StreamTitle='");
    lemma_first_of(text, ';');
    let stop = first_of(text, ';') as int;
    let part = text.take(stop);
    if key.is_prefix_of(part) {
        let rest = part.skip(n);
        lemma_first_of(rest, '\'');
        let close = first_of(rest, '\'') as int;
        assert(text.subrange(0, n) =~= part.subrange(0, n));
        if close < rest.len() {
            assert forall|i: int| n <= i < n + close implies text[i] != '\'' && text[i] != ';' by {
                assert(rest[i - n] == text[i]);
            }
            assert(text[n + close] == rest[close]);
            assert(rest.take(close) =~= text.subrange(n, n + close));
            assert(announces_bare(text, 0, n + close));
        } else {
            assert forall|end: int| !#[trigger] announces_bare(text, 0, end) by {
                if announces_bare(text, 0, end) {
                    if end < stop {
                        assert(rest[end - n] == text[end]);
                    } else {
                        assert(text[stop] == ';');
                    }
                }
            }
        }
    } else {
        assert forall|end: int| !#[trigger] announces_bare(text, 0, end) by {
            if announces_bare(text, 0, end) {
                assert forall|i: int| 0 <= i < n implies text[i] != ';' by {
                    assert(text[i] == text.subrange(0, n)[i]);
                }
                if stop < n {
                    assert(text[stop] == ';');
                }
                assert(part.subrange(0, n) =~= text.subrange(0, n));
            }
        }
    }
}

/// An announcement behind the first semicolon is one of the text behind it.
proof fn lemma_later_part(text: Seq<char>, at: int, end: int)
    requires
        first_of(text, ';') < text.len(),
        at > 0,
    ensures
        announces_bare(text, at, end) <==> announces_bare(
            text.skip(first_of(text, ';') as int + 1),
            at - first_of(text, ';') - 1,
            end - first_of(text, ';') - 1,
        ),
{
    let n = "StreamTitle='"@.len() as int;
    lemma_first_of(text, ';');
    let d = first_of(text, ';') as int + 1;
    let later = text.skip(d);
    if announces_bare(text, at, end) || announces_bare(later, at - d, end - d) {
        assert(at >= d);
        assert(text.subrange(at, at + n) =~= later.subrange(at - d, at - d + n));
    }
    if announces_bare(later, at - d, end - d) {
        assert forall|i: int| at + n <= i < end implies text[i] != '\'' && text[i] != ';' by {
            assert(later[i - d] == text[i]);
        }
    }
}

/// Splitting at semicolons finds the first announcement.
proof fn lemma_split_title(text: Seq<char>)
    ensures
        match first_title(split_on(text, ';')) {
            Some(title) => exists|at: int, end: int| #[trigger]
                announces_bare(text, at, end) && title == text.subrange(
                    at + "StreamTitle='"@.len(),
                    end,
                ) && (forall|a: int, e: int| a < at ==> !#[trigger] announces_bare(text, a, e)),
            None => forall|a: int, e: int| !#[trigger] announces_bare(text, a, e),
        },
    decreases text.len(),
{
    let n = "StreamTitle='"@.len() as int;
    lemma_first_of(text, ';');
    lemma_first_part(text);
    let stop = first_of(text, ';') as int;
    let parts = split_on(text, ';');
    assert(text.take(text.len() as int) =~= text);
    assert(parts[0] == text.take(stop));
    match title_in_part(text.take(stop)) {
        Some(title) => {
            let end = choose|end: int| #[trigger]
                announces_bare(text, 0, end) && title == text.subrange(n, end);
            assert(announces_bare(text, 0, end));
        },
        None => {
            if stop < text.len() {
                let d = stop + 1;
                let later = text.skip(d);
                lemma_split_title(later);
                assert(parts.skip(1) =~= split_on(later, ';'));
                assert forall|a: int, e: int| #[trigger] announces_bare(text, a, e) implies announces_bare(
                    later,
                    a - d,
                    e - d,
                ) by {
                    if a > 0 {
                        lemma_later_part(text, a, e);
                    }
                }
                if let Some(title) = first_title(split_on(later, ';')) {
                    let (at, end) = choose|at: int, end: int| #[trigger]
                        announces_bare(later, at, end) && title == later.subrange(at + n, end) && (
                        forall|a: int, e: int| a < at ==> !#[trigger] announces_bare(later, a, e));
                    lemma_later_part(text, at + d, end + d);
                    assert(later.subrange(at + n, end) =~= text.subrange(at + d + n, end + d));
                    assert(announces_bare(text, at + d, end + d));
                }
            } else {
                assert(parts.skip(1) =~= Seq::empty());
                assert(first_title(parts.skip(1)) is None);
                assert forall|a: int, e: int| !#[trigger] announces_bare(text, a, e) by {
                    if announces_bare(text, a, e) && a > 0 {
                        assert(text[a - 1] == ';');
                    }
                }
            }
        },
    }
}

/// How many NUL characters a text begins with.
proof fn lemma_trim_start(text: Seq<char>) -> (count: int)
    ensures
        0 <= count <= text.len(),
        trim_start(text) == text.skip(count),
        forall|i: int| 0 <= i < count ==> text[i] == '\0',
        count < text.len() ==> text[count] != '\0',
    decreases text.len(),
{
    if text.len() > 0 && text[0] == '\0' {
        let count = lemma_trim_start(text.skip(1)) + 1;
        assert(text.skip(1).skip(count - 1) =~= text.skip(count));
        assert forall|i: int| 0 <= i < count implies text[i] == '\0' by {
            if i > 0 {
                assert(text.skip(1)[i - 1] == text[i]);
            }
        }
        count
    } else {
        assert(text.skip(0) =~= text);
        0
    }
}

proof fn lemma_trim_end_cuts_nuls(text: Seq<char>)
    ensures
        trim_end(text).len() <= text.len(),
        trim_end(text) == text.take(trim_end(text).len() as int),
        forall|i: int| trim_end(text).len() <= i < text.len() ==> text[i] == '\0',
    decreases text.len(),
{
    if text.len() > 0 && text.last() == '\0' {
        lemma_trim_end_cuts_nuls(text.drop_last());
        let len = trim_end(text).len() as int;
        assert(text.drop_last().take(len) =~= text.take(len));
        assert forall|i: int| len <= i < text.len() implies text[i] == '\0' by {
            if i < text.len() - 1 {
                assert(text.drop_last()[i] == text[i]);
            }
        }
    } else {
        assert(text.take(text.len() as int) =~= text);
    }
}

/// Trimming moves announcements and changes none.
proof fn lemma_trimmed_announcements(text: Seq<char>) -> (count: int)
    ensures
        0 <= count <= text.len(),
        trim_end(trim_start(text)).len() <= text.len() - count,
        trim_end(trim_start(text)) == text.subrange(
            count,
            count + trim_end(trim_start(text)).len(),
        ),
        forall|at: int, end: int| #[trigger]
            announces(text, at, end) ==> announces_bare(
                trim_end(trim_start(text)),
                at - count,
                end - count,
            ),
        forall|at: int, end: int| #[trigger]
            announces_bare(trim_end(trim_start(text)), at, end) ==> announces(
                text,
                at + count,
                end + count,
            ),
{
    let n = "StreamTitle='"@.len() as int;
    reveal_strlit("StreamTitle='");
    let count = lemma_trim_start(text);
    let cut = text.skip(count);
    lemma_trim_end_cuts_nuls(cut);
    let bare = trim_end(cut);
    let len = bare.len() as int;
    assert(bare =~= text.subrange(count, count + len));
    assert forall|at: int, end: int| #[trigger] announces(text, at, end) implies announces_bare(
        bare,
        at - count,
        end - count,
    ) by {
        assert(text[at] == text.subrange(at, at + n)[0]);
        assert(text[at] == 'S');
        assert(at >= count);
        if at > count {
            assert(text[count] != '\0');
        }
        if end - count >= len {
            assert(cut[end - count] == text[end]);
        }
        assert(bare.subrange(at - count, at - count + n) =~= text.subrange(at, at + n));
    }
    assert forall|at: int, end: int| #[trigger] announces_bare(bare, at, end) implies announces(
        text,
        at + count,
        end + count,
    ) by {
        assert(bare.subrange(at, at + n) =~= text.subrange(at + count, at + count + n));
        assert forall|i: int| at + count + n <= i < end + count implies text[i] != '\'' && text[i]
            != ';' by {
            assert(bare[i - count] == text[i]);
        }
    }
    count
}

/// The title of a text is the one that is announced first, whatever stands before the
/// announcement and behind it.
pub proof fn first_announced_title_is_found(text: Seq<char>, at: int, end: int)
    requires
        announces(text, at, end),
        forall|a: int, e: int| a < at ==> !#[trigger] announces(text, a, e),
    ensures
        title_of(text) == Some(text.subrange(at + "StreamTitle='"@.len(), end)),
{
    let n = "StreamTitle='"@.len() as int;
    let count = lemma_trimmed_announcements(text);
    let bare = trim_end(trim_start(text));
    lemma_split_title(bare);
    assert(announces_bare(bare, at - count, end - count));
    let title = title_of(text)->0;
    let (a, e) = choose|a: int, e: int| #[trigger]
        announces_bare(bare, a, e) && title == bare.subrange(a + n, e) && (forall|x: int, y: int|
            x < a ==> !#[trigger] announces_bare(bare, x, y));
    assert(announces(text, a + count, e + count));
    assert(a == at - count);
    if e + count < end {
        assert(text[e + count] == '\'');
    }
    if end < e + count {
        assert(text[end] == '\'');
    }
    assert(bare.subrange(a + n, e) =~= text.subrange(at + n, end));
}

/// A text that announces no title has none.
pub proof fn no_title_without_an_announcement(text: Seq<char>)
    requires
        forall|a: int, e: int| !#[trigger] announces(text, a, e),
    ensures
        title_of(text) is None,
{
    let count = lemma_trimmed_announcements(text);
    let bare = trim_end(trim_start(text));
    lemma_split_title(bare);
    if let Some(title) = title_of(text) {
        let (a, e) = choose|a: int, e: int| #[trigger]
            announces_bare(bare, a, e) && title == bare.subrange(
                a + "StreamTitle='"@.len(),
                e,
            ) && (forall|x: int, y: int| x < a ==> !#[trigger] announces_bare(bare, x, y));
        assert(announces(text, a + count, e + count));
    }
}

/// What is announced in front of a semicolon is announced there in full.
proof fn lemma_announced_in_front(before: Seq<char>, rest: Seq<char>, at: int, end: int)
    requires
        announces(before + rest, at, end),
        at < before.len(),
        before.last() == ';',
    ensures
        announces(before, at, end),
{
    let n = "StreamTitle='"@.len() as int;
    reveal_strlit("StreamTitle='");
    let text = before + rest;
    let last = before.len() - 1;
    assert(text[last] == ';');
    if last < at + n {
        assert(text.subrange(at, at + n)[last - at] == text[last]);
    }
    assert(end < before.len());
    assert(before.subrange(at, at + n) =~= text.subrange(at, at + n));
    assert forall|i: int| 0 <= i < before.len() implies before[i] == text[i] by {}
}

/// A title is found behind whatever other parts the block holds, as long as they end
/// with a semicolon and announce none themselves.
pub proof fn title_is_found_behind_other_parts(
    before: Seq<char>,
    title: Seq<char>,
    more: Seq<char>,
    padding: nat,
)
    requires
        before.len() > 0 ==> before.last() == ';',
        forall|a: int, e: int| !#[trigger] announces(before, a, e),
        !title.contains('\''),
        !title.contains(';'),
    ensures
        title_of(before + announcement(title, more) + nuls(padding)) == Some(title),
{
    let key = "StreamTitle='"@;
    let n = key.len() as int;
    reveal_strlit("StreamTitle='");
    let at = before.len() as int;
    let end = at + n + title.len();
    let text = before + announcement(title, more) + nuls(padding);
    assert(text.subrange(at, at + n) =~= key);
    assert(text.subrange(at + n, end) =~= title);
    assert forall|i: int| at + n <= i < end implies text[i] != '\'' && text[i] != ';' by {
        assert(title[i - at - n] == text[i]);
    }
    assert(announces(text, at, end));
    assert(text =~= before + (announcement(title, more) + nuls(padding)));
    assert forall|a: int, e: int| a < at implies !#[trigger] announces(text, a, e) by {
        if announces(text, a, e) {
            lemma_announced_in_front(before, announcement(title, more) + nuls(padding), a, e);
        }
    }
    first_announced_title_is_found(text, at, end);
}

/// The same of the bytes of the block.
pub proof fn title_is_found_behind_other_parts_in_bytes(
    before: Seq<char>,
    title: Seq<char>,
    more: Seq<char>,
    padding: nat,
)
    requires
        before.len() > 0 ==> before.last() == ';',
        forall|a: int, e: int| !#[trigger] announces(before, a, e),
        !title.contains('\''),
        !title.contains(';'),
    ensures
        title_of(
            block_text(
                vstd::utf8::encode_utf8(before + announcement(title, more)) + zeros(padding),
            ),
        ) == Some(title),
{
    let text = before + announcement(title, more) + nuls(padding);
    lemma_encode_concat(before + announcement(title, more), nuls(padding));
    lemma_encode_nuls(padding);
    encoded_text_is_read_back(text);
    title_is_found_behind_other_parts(before, title, more, padding);
}

/// The text of a block that encodes a text is that text.
pub proof fn encoded_text_is_read_back(text: Seq<char>)
    ensures
        block_text(vstd::utf8::encode_utf8(text)) == text,
{
    vstd::utf8::encode_utf8_valid_utf8(text);
    vstd::utf8::encode_utf8_decode_utf8(text);
}

/// A block that is UTF-8 is the encoding of its text; the text of any other is the one
/// that the lossy decoding makes of it.
pub proof fn block_text_stands_for_the_block(block: Seq<u8>)
    ensures
        vstd::utf8::valid_utf8(block) ==> vstd::utf8::encode_utf8(block_text(block)) == block,
        !vstd::utf8::valid_utf8(block) ==> block_text(block) == repaired_utf8(block),
{
    if vstd::utf8::valid_utf8(block) {
        vstd::utf8::decode_utf8_encode_utf8(block);
    }
}

} // verus!
