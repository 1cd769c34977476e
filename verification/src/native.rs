//! The platform's paths as text.
//!
//! A path of the platform is a row of bytes that need not be text. Here every
//! path is text all the same: where a run of bytes that are not ASCII is no
//! UTF-8, each of them stands as two characters, the zero character and the one
//! with the byte's number. No path of a platform holds a zero byte, so nothing
//! else is written like that, and the bytes can be had back.

use crate::outside::{lossy_text, text_lossy, text_strict};
use crate::text::chars_of;
use vstd::prelude::*;
use vstd::utf8::{
    decode_utf8, decode_utf8_encode_utf8, encode_scalar, encode_utf8, encode_utf8_decode_utf8,
    encode_utf8_first_scalar, encode_utf8_valid_utf8, valid_utf8,
};

verus! {

/// Where the bytes from `i` on that are not ASCII come to their end.
pub open spec fn run_end(bytes: Seq<u8>, i: int) -> int
    decreases bytes.len() - i,
{
    if i < 0 || i >= bytes.len() || bytes[i] < 128 {
        i
    } else {
        run_end(bytes, i + 1)
    }
}

/// Bytes that are no text, each as two characters.
pub open spec fn escaped(bytes: Seq<u8>) -> Seq<char>
    decreases bytes.len(),
{
    if bytes.len() == 0 {
        Seq::empty()
    } else {
        escaped(bytes.drop_last()).push('\0').push(bytes.last() as char)
    }
}

/// Bytes that are not ASCII, as text.
pub open spec fn run_text(run: Seq<u8>) -> Seq<char> {
    if valid_utf8(run) {
        decode_utf8(run)
    } else {
        escaped(run)
    }
}

/// The bytes of a path from `i` on as text.
pub open spec fn path_text(bytes: Seq<u8>, i: int) -> Seq<char>
    decreases bytes.len() - i,
    when 0 <= i
    via path_text_shrinks
{
    if i >= bytes.len() {
        Seq::empty()
    } else if bytes[i] < 128 {
        seq![bytes[i] as char] + path_text(bytes, i + 1)
    } else {
        run_text(bytes.subrange(i, run_end(bytes, i))) + path_text(bytes, run_end(bytes, i))
    }
}

#[via_fn]
proof fn path_text_shrinks(bytes: Seq<u8>, i: int) {
    if i < bytes.len() && bytes[i] >= 128 {
        run_end_bounds(bytes, i + 1);
    }
}

proof fn run_end_bounds(bytes: Seq<u8>, i: int)
    requires
        0 <= i <= bytes.len(),
    ensures
        i <= run_end(bytes, i) <= bytes.len(),
        forall|j: int| i <= j < run_end(bytes, i) ==> #[trigger] bytes[j] >= 128,
    decreases bytes.len() - i,
{
    if i < bytes.len() && bytes[i] >= 128 {
        run_end_bounds(bytes, i + 1);
    }
}

/// Whether a character, behind the zero character, stands for a byte.
pub open spec fn is_byte(c: char) -> bool {
    128 <= c as u32 && c as u32 <= 255
}

/// The bytes of a path.
pub open spec fn path_bytes(s: Seq<char>) -> Seq<u8>
    decreases s.len(),
{
    if s.len() == 0 {
        Seq::empty()
    } else if s.len() > 1 && s[0] == '\0' && is_byte(s[1]) {
        seq![s[1] as u8] + path_bytes(s.skip(2))
    } else {
        encode_utf8(seq![s[0]]) + path_bytes(s.skip(1))
    }
}

/// A path as it is shown: what is no text in it is shown as U+FFFD.
pub open spec fn readable(s: Seq<char>) -> Seq<char> {
    if s.contains('\0') {
        lossy_text(path_bytes(s))
    } else {
        s
    }
}

fn append_escaped(text: &mut String, bytes: &Vec<u8>)
    ensures
        final(text)@ == old(text)@ + escaped(bytes@),
{
    let ghost before = text@;
    let mut i: usize = 0;
    assert(text@ =~= before + escaped(bytes@.take(0)));
    while i < bytes.len()
        invariant
            i <= bytes@.len(),
            text@ == before + escaped(bytes@.take(i as int)),
        decreases bytes@.len() - i,
    {
        assert(bytes@.take(i + 1).drop_last() =~= bytes@.take(i as int));
        text.push('\0');
        text.push(bytes[i] as char);
        assert(text@ =~= before + escaped(bytes@.take(i + 1)));
        i = i + 1;
    }
    assert(bytes@.take(bytes@.len() as int) =~= bytes@);
}

/// The bytes of a path as text.
pub fn path_of_bytes(bytes: &Vec<u8>) -> (path: String)
    ensures
        path@ == path_text(bytes@, 0),
{
    let mut path = String::new();
    let mut i: usize = 0;
    assert(path@ + path_text(bytes@, 0) =~= path_text(bytes@, 0));
    while i < bytes.len()
        invariant
            i <= bytes@.len(),
            path@ + path_text(bytes@, i as int) == path_text(bytes@, 0),
        decreases bytes@.len() - i,
    {
        let ghost before = path@;
        if bytes[i] < 128 {
            path.push(bytes[i] as char);
            assert(before + (seq![bytes@[i as int] as char] + path_text(bytes@, i + 1)) =~= path@
                + path_text(bytes@, i + 1));
            i = i + 1;
        } else {
            let start = i;
            let mut run: Vec<u8> = Vec::new();
            proof {
                run_end_bounds(bytes@, start as int);
            }
            while i < bytes.len() && bytes[i] >= 128
                invariant
                    start <= i <= bytes@.len(),
                    run@ =~= bytes@.subrange(start as int, i as int),
                    run_end(bytes@, start as int) == run_end(bytes@, i as int),
                decreases bytes@.len() - i,
            {
                run.push(bytes[i]);
                i = i + 1;
            }
            proof {
                run_end_bounds(bytes@, start + 1);
            }
            match text_strict(&run) {
                Ok(text) => {
                    path.append(text.as_str());
                },
                Err(_) => {
                    append_escaped(&mut path, &run);
                },
            }
            assert(path@ =~= before + run_text(run@));
            assert(before + (run_text(run@) + path_text(bytes@, i as int)) =~= path@ + path_text(
                bytes@,
                i as int,
            ));
        }
    }
    assert(path@ + path_text(bytes@, i as int) =~= path@);
    path
}

/// The bytes of a path.
pub fn bytes_of_path(path: &str) -> (bytes: Vec<u8>)
    ensures
        bytes@ == path_bytes(path@),
{
    let chars = chars_of(path);
    let mut bytes: Vec<u8> = Vec::new();
    let mut i: usize = 0;
    assert(chars@.skip(0) =~= chars@);
    while i < chars.len()
        invariant
            i <= chars@.len(),
            chars@ == path@,
            bytes@ + path_bytes(chars@.skip(i as int)) == path_bytes(path@),
        decreases chars@.len() - i,
    {
        let ghost before = bytes@;
        let ghost rest = chars@.skip(i as int);
        let c = chars[i];
        if i + 1 < chars.len() && c == '\0' && 128 <= chars[i + 1] as u32 && chars[i + 1] as u32
            <= 255 {
            bytes.push(chars[i + 1] as u8);
            assert(rest.skip(2) =~= chars@.skip(i + 2));
            assert(before + (seq![rest[1] as u8] + path_bytes(rest.skip(2))) =~= bytes@
                + path_bytes(chars@.skip(i + 2)));
            i = i + 2;
        } else {
            let mut one = String::new();
            one.push(c);
            assert(one@ =~= seq![c]);
            let utf8 = one.as_str().as_bytes();
            let mut j: usize = 0;
            while j < utf8.len()
                invariant
                    j <= utf8@.len(),
                    bytes@ =~= before + utf8@.take(j as int),
                decreases utf8@.len() - j,
            {
                bytes.push(utf8[j]);
                j = j + 1;
            }
            assert(utf8@.take(utf8@.len() as int) =~= utf8@);
            assert(rest.skip(1) =~= chars@.skip(i + 1));
            assert(before + (encode_utf8(seq![c]) + path_bytes(rest.skip(1))) =~= bytes@
                + path_bytes(chars@.skip(i + 1)));
            i = i + 1;
        }
    }
    assert(bytes@ + path_bytes(chars@.skip(i as int)) =~= bytes@);
    bytes
}

/// Whether a path is text all through.
pub fn is_text(path: &str) -> (yes: bool)
    ensures
        yes == !path@.contains('\0'),
{
    let chars = chars_of(path);
    let mut i: usize = 0;
    while i < chars.len()
        invariant
            i <= chars@.len(),
            chars@ == path@,
            forall|j: int| 0 <= j < i ==> path@[j] != '\0',
        decreases chars@.len() - i,
    {
        if chars[i] == '\0' {
            assert(path@[i as int] == '\0');
            return false;
        }
        i = i + 1;
    }
    true
}

/// A path as it is shown.
pub fn readable_text(path: &str) -> (text: String)
    ensures
        text@ == readable(path@),
{
    if is_text(path) {
        path.to_owned()
    } else {
        text_lossy(&bytes_of_path(path))
    }
}

/// Paths as they are shown.
pub open spec fn all_readable(paths: Seq<Seq<char>>) -> Seq<Seq<char>> {
    paths.map_values(|path: Seq<char>| readable(path))
}

/// Paths as they are shown.
pub fn readable_texts(paths: &Vec<String>) -> (texts: Vec<String>)
    ensures
        texts.deep_view() == all_readable(paths.deep_view()),
{
    let mut texts: Vec<String> = Vec::new();
    let mut i: usize = 0;
    while i < paths.len()
        invariant
            i <= paths@.len(),
            texts@.len() == i,
            forall|j: int| 0 <= j < i ==> (#[trigger] texts@[j])@ == readable(paths@[j]@),
        decreases paths@.len() - i,
    {
        texts.push(readable_text(paths[i].as_str()));
        i = i + 1;
    }
    assert(texts.deep_view() =~= all_readable(paths.deep_view()));
    texts
}

/// Text without zero characters stands for its own bytes.
proof fn plain_bytes(plain: Seq<char>, rest: Seq<char>)
    requires
        !plain.contains('\0'),
    ensures
        path_bytes(plain + rest) == encode_utf8(plain) + path_bytes(rest),
    decreases plain.len(),
{
    if plain.len() == 0 {
        assert(plain + rest =~= rest);
        assert(encode_utf8(plain) + path_bytes(rest) =~= path_bytes(rest));
    } else {
        let s = plain + rest;
        let tail = plain.drop_first();
        assert(plain.contains(plain[0]));
        assert(s[0] == plain[0]);
        assert(!tail.contains('\0')) by {
            if tail.contains('\0') {
                let k = choose|k: int| 0 <= k < tail.len() && tail[k] == '\0';
                assert(plain[k + 1] == '\0');
            }
        }
        plain_bytes(tail, rest);
        assert(s.skip(1) =~= tail + rest);
        let one = seq![plain[0]];
        assert(one.drop_first() =~= Seq::<char>::empty());
        assert(encode_utf8(one.drop_first()) =~= Seq::<u8>::empty());
        assert(encode_utf8(one) =~= encode_scalar(plain[0] as u32));
        assert(encode_utf8(one) + (encode_utf8(tail) + path_bytes(rest)) =~= encode_utf8(plain)
            + path_bytes(rest));
    }
}

/// Bytes that are no text stand for themselves.
proof fn escaped_bytes(bytes: Seq<u8>, rest: Seq<char>)
    requires
        forall|j: int| 0 <= j < bytes.len() ==> #[trigger] bytes[j] >= 128,
    ensures
        path_bytes(escaped(bytes) + rest) == bytes + path_bytes(rest),
    decreases bytes.len(),
{
    if bytes.len() == 0 {
        assert(escaped(bytes) + rest =~= rest);
        assert(bytes + path_bytes(rest) =~= path_bytes(rest));
    } else {
        let init = bytes.drop_last();
        let last = bytes.last();
        assert forall|j: int| 0 <= j < init.len() implies #[trigger] init[j] >= 128 by {
            assert(init[j] == bytes[j]);
        }
        assert(bytes[bytes.len() - 1] >= 128);
        let more = seq!['\0', last as char] + rest;
        assert(escaped(bytes) + rest =~= escaped(init) + more);
        escaped_bytes(init, more);
        assert(more.skip(2) =~= rest);
        assert(path_bytes(more) == seq![last] + path_bytes(rest));
        assert(init + (seq![last] + path_bytes(rest)) =~= bytes + path_bytes(rest));
    }
}

proof fn zeros_are_encoded(text: Seq<char>)
    requires
        text.contains('\0'),
    ensures
        encode_utf8(text).contains(0u8),
    decreases text.len(),
{
    let k = choose|k: int| 0 <= k < text.len() && text[k] == '\0';
    let first = encode_scalar(text[0] as u32);
    let rest = encode_utf8(text.drop_first());
    if k == 0 {
        zero_is_a_byte();
        assert((first + rest)[0] == 0u8);
    } else {
        assert(text.drop_first()[k - 1] == '\0');
        zeros_are_encoded(text.drop_first());
        let j = choose|j: int| 0 <= j < rest.len() && rest[j] == 0u8;
        assert((first + rest)[first.len() + j] == 0u8);
    }
}

proof fn zero_is_a_byte()
    ensures
        encode_scalar(0) == seq![0u8],
{
    assert(0u32 & 0x7f == 0u32) by (bit_vector);
    assert(encode_scalar(0) =~= seq![0u8]);
}

/// The bytes of a path can be had back from its text.
pub proof fn a_path_keeps_its_bytes(bytes: Seq<u8>, i: int)
    requires
        0 <= i <= bytes.len(),
        !bytes.contains(0u8),
    ensures
        path_bytes(path_text(bytes, i)) == bytes.skip(i),
    decreases bytes.len() - i,
{
    if i == bytes.len() {
        assert(bytes.skip(i) =~= Seq::empty());
    } else if bytes[i] < 128 {
        a_path_keeps_its_bytes(bytes, i + 1);
        let c = bytes[i] as char;
        let rest = path_text(bytes, i + 1);
        let one = seq![c];
        assert(bytes.contains(bytes[i]));
        assert(!one.contains('\0'));
        plain_bytes(one, rest);
        ascii_is_a_byte(bytes[i]);
        assert(one.drop_first() =~= Seq::<char>::empty());
        assert(encode_utf8(one.drop_first()) =~= Seq::<u8>::empty());
        assert(encode_utf8(one) =~= seq![bytes[i]]);
        assert(bytes.skip(i) =~= seq![bytes[i]] + bytes.skip(i + 1));
    } else {
        run_end_bounds(bytes, i + 1);
        run_end_bounds(bytes, i);
        let end = run_end(bytes, i);
        let run = bytes.subrange(i, end);
        let rest = path_text(bytes, end);
        a_path_keeps_its_bytes(bytes, end);
        if valid_utf8(run) {
            decode_utf8_encode_utf8(run);
            let text = decode_utf8(run);
            if text.contains('\0') {
                zeros_are_encoded(text);
                let k = choose|k: int| 0 <= k < run.len() && run[k] == 0u8;
                assert(bytes[i + k] == 0u8);
            }
            plain_bytes(text, rest);
        } else {
            assert forall|j: int| 0 <= j < run.len() implies #[trigger] run[j] >= 128 by {
                assert(run[j] == bytes[i + j]);
            }
            escaped_bytes(run, rest);
        }
        assert(bytes.skip(i) =~= run + bytes.skip(end));
    }
}

proof fn ascii_is_a_byte(b: u8)
    requires
        b < 128,
    ensures
        encode_scalar((b as char) as u32) == seq![b],
{
    let c = (b as char) as u32;
    assert(c == b);
    assert((c & 0x7f) as u8 == b) by (bit_vector)
        requires
            b < 128,
            c == b,
    ;
    assert(encode_scalar(c) =~= seq![b]);
}

proof fn ascii_is_its_byte(c: char)
    requires
        (c as u32) < 128,
    ensures
        (c as u8) < 128,
        (c as u8) as char == c,
        encode_scalar(c as u32) == seq![c as u8],
{
    let code = c as u32;
    assert((code as u8) < 128 && code as u8 == code) by (bit_vector)
        requires
            code < 128,
    ;
    assert(c as u8 == code as u8);
    ascii_is_a_byte(c as u8);
}

/// How many characters are not ASCII before the first that is.
spec fn wide(text: Seq<char>) -> nat
    decreases text.len(),
{
    if text.len() == 0 || (text[0] as u32) < 128 {
        0
    } else {
        1 + wide(text.drop_first())
    }
}

/// A character that is not ASCII takes bytes that are not.
proof fn wide_bytes(c: char)
    requires
        c as u32 >= 128,
    ensures
        encode_scalar(c as u32).len() > 0,
        forall|j: int|
            0 <= j < encode_scalar(c as u32).len() ==> #[trigger] encode_scalar(c as u32)[j] >= 128,
{
    let one = seq![c];
    let bytes = encode_scalar(c as u32);
    assert(one.drop_first() =~= Seq::<char>::empty());
    assert(encode_utf8(one.drop_first()) =~= Seq::<u8>::empty());
    assert(encode_utf8(one) =~= bytes);
    encode_utf8_first_scalar(one);
    let b = bytes[0];
    assert(b < 128 ==> ((b & 0x7f) as u32) < 128) by (bit_vector);
}

/// A text is what is not ASCII at its beginning, and the rest.
proof fn wide_splits(text: Seq<char>)
    ensures
        wide(text) <= text.len(),
        encode_utf8(text) == encode_utf8(text.take(wide(text) as int)) + encode_utf8(
            text.skip(wide(text) as int),
        ),
        forall|j: int|
            0 <= j < encode_utf8(text.take(wide(text) as int)).len() ==> #[trigger] encode_utf8(
                text.take(wide(text) as int),
            )[j] >= 128,
        wide(text) < text.len() ==> (text[wide(text) as int] as u32) < 128,
    decreases text.len(),
{
    let m = wide(text) as int;
    if m == 0 {
        assert(text.take(0) =~= Seq::<char>::empty());
        assert(text.skip(0) =~= text);
        assert(encode_utf8(text.take(0)) =~= Seq::<u8>::empty());
        assert(encode_utf8(text.take(0)) + encode_utf8(text) =~= encode_utf8(text));
    } else {
        let tail = text.drop_first();
        wide_splits(tail);
        wide_bytes(text[0]);
        let head = text.take(m);
        assert(head.drop_first() =~= tail.take(m - 1));
        assert(text.skip(m) =~= tail.skip(m - 1));
        assert(head[0] == text[0]);
        let first = encode_scalar(text[0] as u32);
        assert(encode_utf8(head) == first + encode_utf8(tail.take(m - 1)));
        assert(encode_utf8(text) =~= encode_utf8(head) + encode_utf8(text.skip(m)));
    }
}

proof fn run_ends(bytes: Seq<u8>, i: int, end: int)
    requires
        0 <= i <= end <= bytes.len(),
        forall|j: int| i <= j < end ==> #[trigger] bytes[j] >= 128,
        end < bytes.len() ==> bytes[end] < 128,
    ensures
        run_end(bytes, i) == end,
    decreases end - i,
{
    if i < end {
        run_ends(bytes, i + 1, end);
    }
}

/// A path that is text stands for itself.
pub proof fn text_stands_for_itself(text: Seq<char>)
    ensures
        path_text(encode_utf8(text), 0) == text,
{
    assert(Seq::<u8>::empty() + encode_utf8(text) =~= encode_utf8(text));
    text_stands_behind(Seq::empty(), text);
}

proof fn text_stands_behind(before: Seq<u8>, text: Seq<char>)
    ensures
        path_text(before + encode_utf8(text), before.len() as int) == text,
    decreases text.len(),
{
    let bytes = before + encode_utf8(text);
    let i = before.len() as int;
    if text.len() == 0 {
    } else if (text[0] as u32) < 128 {
        let b = text[0] as u8;
        ascii_is_its_byte(text[0]);
        let rest = text.drop_first();
        assert(encode_utf8(text) == seq![b] + encode_utf8(rest));
        assert(bytes =~= before.push(b) + encode_utf8(rest));
        text_stands_behind(before.push(b), rest);
        assert(bytes[i] == b);
        assert(seq![text[0]] + rest =~= text);
    } else {
        let m = wide(text) as int;
        wide_splits(text);
        let head = text.take(m);
        let rest = text.skip(m);
        let run = encode_utf8(head);
        let end = i + run.len();
        let longer = before + run;
        assert(bytes =~= longer + encode_utf8(rest));
        text_stands_behind(longer, rest);
        assert forall|j: int| i <= j < end implies #[trigger] bytes[j] >= 128 by {
            assert(bytes[j] == run[j - i]);
        }
        wide_bytes(text[0]);
        assert(head[0] == text[0]);
        assert(run.len() > 0);
        if rest.len() > 0 {
            let b = rest[0] as u8;
            ascii_is_its_byte(rest[0]);
            assert(bytes[end] == b);
        }
        run_ends(bytes, i, end);
        assert(bytes.subrange(i, end) =~= run);
        encode_utf8_valid_utf8(head);
        encode_utf8_decode_utf8(head);
        assert(head + rest =~= text);
    }
}

/// The bytes of a path that is text are its UTF-8.
pub proof fn the_bytes_of_text(text: Seq<char>)
    requires
        !text.contains('\0'),
    ensures
        path_bytes(text) == encode_utf8(text),
    decreases text.len(),
{
    if text.len() > 0 {
        let one = seq![text[0]];
        let rest = text.skip(1);
        assert(text[0] != '\0');
        assert forall|i: int| 0 <= i < rest.len() implies #[trigger] rest[i] != '\0' by {
            assert(rest[i] == text[i + 1]);
        }
        the_bytes_of_text(rest);
        assert(text.drop_first() =~= rest);
        assert(one.drop_first() =~= Seq::<char>::empty());
        assert(encode_utf8(one.drop_first()) =~= Seq::<u8>::empty());
        assert(encode_utf8(one) =~= encode_scalar(text[0] as u32));
    }
}

/// A backslash is in the UTF-8 of a text exactly where it is in the text.
pub proof fn a_backslash_is_its_byte(text: Seq<char>)
    ensures
        encode_utf8(text).contains(92u8) <==> text.contains('\\'),
    decreases text.len(),
{
    if text.len() > 0 {
        let c = text[0];
        let rest = text.drop_first();
        let first = encode_scalar(c as u32);
        let more = encode_utf8(rest);
        let all = encode_utf8(text);
        a_backslash_is_its_byte(rest);
        assert(all =~= first + more);
        assert(text =~= seq![c] + rest);
        if (c as u32) < 128 {
            ascii_is_its_byte(c);
            assert(first =~= seq![c as u8]);
            assert('\\' as u32 == 92u32);
            assert((c as u8 == 92u8) <==> c == '\\') by {
                if c as u8 == 92u8 {
                    assert((c as u8) as char == c);
                }
            }
        } else {
            wide_bytes(c);
        }
        if more.contains(92u8) {
            let k = choose|k: int| 0 <= k < more.len() && more[k] == 92u8;
            assert(all[first.len() + k] == 92u8);
        }
        if rest.contains('\\') {
            let k = choose|k: int| 0 <= k < rest.len() && rest[k] == '\\';
            assert(text[k + 1] == '\\');
        }
        if all.contains(92u8) {
            let k = choose|k: int| 0 <= k < all.len() && all[k] == 92u8;
            if k < first.len() {
                assert(first[k] == 92u8);
                assert(text[0] == '\\');
            } else {
                assert(more[k - first.len()] == 92u8);
                assert(more.contains(92u8));
            }
        }
        if text.contains('\\') {
            let k = choose|k: int| 0 <= k < text.len() && text[k] == '\\';
            if k > 0 {
                assert(rest[k - 1] == '\\');
                assert(rest.contains('\\'));
            } else {
                assert(all[0] == 92u8);
            }
        }
    }
}

} // verus!
