//! The appearance string of a free-text note: `0 0 0 rg /Helv 12 Tf`.
//!
//! Written, it sets black fill and the font `Helv` at the note's size. Read,
//! it is split into words at white space, and the size is the number that
//! stands right before a word `Tf`. White space is the space, tab to carriage
//! return, and the white-space characters beyond these in their UTF-8 form,
//! such as the no-break space.

use vstd::prelude::*;
use crate::decimal::{
    decimal_text,
    decimal_value,
    format_decimal,
    lemma_text_bytes,
    lemma_text_reads_back,
    magnitude,
    nat_text,
    parse_decimal,
};
use crate::object::bytes_eq;

verus! {

/// The font size of a note that names none, in thousandths.
pub const DEFAULT_FONT_SIZE: i64 = 14_000;

/// `Tf`
pub const TF: [u8; 2] = [84, 102];

/// `0 0 0 rg /Helv `
pub const BLACK_HELV: [u8; 15] = [48, 32, 48, 32, 48, 32, 114, 103, 32, 47, 72, 101, 108, 118, 32];

/// ` Tf`
pub const SET_FONT: [u8; 3] = [32, 84, 102];

/// White space: the space, and tab to carriage return.
pub open spec fn is_space(b: u8) -> bool {
    b == 32 || (9 <= b <= 13)
}

/// The words of `s`: its longest runs of bytes that are not white space.
///
/// Byte by byte: white space adds nothing, a byte after another byte of a
/// word extends the last word, and any other byte begins a word.
pub open spec fn words(s: Seq<u8>) -> Seq<Seq<u8>>
    decreases s.len(),
{
    if s.len() == 0 {
        Seq::empty()
    } else {
        let before = words(s.drop_last());
        if is_space(s.last()) {
            before
        } else if s.len() >= 2 && !is_space(s[s.len() - 2]) && before.len() > 0 {
            before.drop_last().push(before.last().push(s.last()))
        } else {
            before.push(seq![s.last()])
        }
    }
}

/// The size that the words from place `from` on give: the number before the
/// first `Tf` that has a number before it.
pub open spec fn size_in(ws: Seq<Seq<u8>>, from: int) -> Option<int>
    decreases ws.len() - from,
{
    if from >= ws.len() {
        None
    } else if from >= 1 && ws[from] == TF@ && decimal_value(ws[from - 1]) is Some {
        decimal_value(ws[from - 1])
    } else {
        size_in(ws, from + 1)
    }
}

/// How many bytes the white-space character of two or three bytes takes that
/// `s` begins with; 0 where it begins with none. These are U+0085, U+00A0,
/// U+1680, U+2000 to U+200A, U+2028, U+2029, U+202F, U+205F and U+3000, in
/// UTF-8.
pub open spec fn wide_space_len(s: Seq<u8>) -> int {
    if s.len() >= 2 && s[0] == 0xC2 && (s[1] == 0x85 || s[1] == 0xA0) {
        2
    } else if s.len() >= 3 && s[0] == 0xE1 && s[1] == 0x9A && s[2] == 0x80 {
        3
    } else if s.len() >= 3 && s[0] == 0xE2 && s[1] == 0x80 && (0x80 <= s[2] <= 0x8A || s[2] == 0xA8
        || s[2] == 0xA9 || s[2] == 0xAF) {
        3
    } else if s.len() >= 3 && s[0] == 0xE2 && s[1] == 0x81 && s[2] == 0x9F {
        3
    } else if s.len() >= 3 && s[0] == 0xE3 && s[1] == 0x80 && s[2] == 0x80 {
        3
    } else {
        0
    }
}

/// The text with a space in place of every white-space character of two or
/// three bytes, read from the left.
pub open spec fn spaced(s: Seq<u8>) -> Seq<u8>
    decreases s.len(),
{
    if s.len() == 0 {
        s
    } else if wide_space_len(s) > 0 {
        seq![32u8] + spaced(s.skip(wide_space_len(s)))
    } else {
        seq![s[0]] + spaced(s.skip(1))
    }
}

/// The font size that an appearance string gives, in thousandths.
pub open spec fn font_size_of(da: Seq<u8>) -> Option<int> {
    size_in(words(spaced(da)), 0)
}

/// The appearance string for a font size in thousandths.
pub open spec fn appearance_text(size: int) -> Seq<u8> {
    BLACK_HELV@ + decimal_text(size) + SET_FONT@
}

/// The size that a note is written with.
pub open spec fn size_or_default(font_size: Option<int>) -> int {
    match font_size {
        Some(size) => size,
        None => DEFAULT_FONT_SIZE as int,
    }
}

/// The views of a vector of byte strings.
pub open spec fn views(ws: Seq<Vec<u8>>) -> Seq<Seq<u8>> {
    ws.map_values(|w: Vec<u8>| w@)
}

fn is_space_byte(b: u8) -> (r: bool)
    ensures
        r == is_space(b),
{
    b == 32 || (9 <= b && b <= 13)
}

/// Splits `text` into its words.
pub fn split_words(text: &[u8]) -> (ws: Vec<Vec<u8>>)
    ensures
        views(ws@) == words(text@),
{
    let mut done: Vec<Vec<u8>> = Vec::new();
    let mut word: Vec<u8> = Vec::new();
    let mut i: usize = 0;
    assert(text@.take(0) =~= Seq::<u8>::empty());
    assert(views(done@) =~= Seq::<Seq<u8>>::empty());
    while i < text.len()
        invariant
            i <= text.len(),
            word@.len() > 0 <==> (i > 0 && !is_space(text@[i - 1])),
            words(text@.take(i as int)) == if word@.len() > 0 {
                views(done@).push(word@)
            } else {
                views(done@)
            },
        decreases text.len() - i,
    {
        let b = text[i];
        let ghost before = text@.take(i as int);
        let ghost now = text@.take(i + 1);
        proof {
            assert(now.drop_last() =~= before);
            assert(now.last() == b);
            if i > 0 {
                assert(now[now.len() - 2] == text@[i - 1]);
            }
        }
        if is_space_byte(b) {
            if word.len() > 0 {
                let ghost old_done = done@;
                let ghost old_word = word@;
                done.push(word);
                word = Vec::new();
                assert(views(done@) =~= views(old_done).push(old_word));
            }
            assert(words(now) == views(done@));
        } else {
            let ghost old_word = word@;
            word.push(b);
            proof {
                if old_word.len() > 0 {
                    let ws = views(done@).push(old_word);
                    assert(ws.drop_last() =~= views(done@));
                    assert(ws.last() == old_word);
                    assert(words(now) == views(done@).push(old_word.push(b)));
                } else {
                    assert(word@ =~= seq![b]);
                    assert(words(now) == views(done@).push(seq![b]));
                }
            }
        }
        i += 1;
    }
    assert(text@.take(i as int) =~= text@);
    if word.len() > 0 {
        let ghost old_done = done@;
        done.push(word);
        assert(views(done@) =~= views(old_done).push(done@.last()@));
    }
    done
}

/// How many bytes the white-space character of two or three bytes takes that
/// stands at place `i`.
fn wide_space_at(text: &[u8], i: usize) -> (n: usize)
    requires
        i < text.len(),
    ensures
        n == wide_space_len(text@.skip(i as int)),
        i + n <= text.len(),
{
    let ghost s = text@.skip(i as int);
    let left = text.len() - i;
    assert(s.len() == left);
    assert(s[0] == text@[i as int]);
    if left < 2 {
        return 0;
    }
    assert(s[1] == text@[i + 1]);
    let a = text[i];
    let b = text[i + 1];
    if a == 0xC2 && (b == 0x85 || b == 0xA0) {
        return 2;
    }
    if left < 3 {
        return 0;
    }
    assert(s[2] == text@[i + 2]);
    let c = text[i + 2];
    if a == 0xE1 && b == 0x9A && c == 0x80 {
        3
    } else if a == 0xE2 && b == 0x80 && ((0x80 <= c && c <= 0x8A) || c == 0xA8 || c == 0xA9 || c
        == 0xAF) {
        3
    } else if a == 0xE2 && b == 0x81 && c == 0x9F {
        3
    } else if a == 0xE3 && b == 0x80 && c == 0x80 {
        3
    } else {
        0
    }
}

/// Puts a space in place of every white-space character of two or three
/// bytes.
pub fn space_out(text: &[u8]) -> (out: Vec<u8>)
    ensures
        out@ == spaced(text@),
{
    let mut out: Vec<u8> = Vec::new();
    let mut i: usize = 0;
    assert(text@.skip(0) =~= text@);
    while i < text.len()
        invariant
            i <= text.len(),
            spaced(text@) == out@ + spaced(text@.skip(i as int)),
        decreases text.len() - i,
    {
        let n = wide_space_at(text, i);
        let ghost rest = text@.skip(i as int);
        let ghost so_far = out@;
        if n > 0 {
            out.push(32);
            proof {
                assert(rest.skip(n as int) =~= text@.skip(i + n));
                assert(out@ + spaced(text@.skip(i + n)) =~= so_far + spaced(rest));
            }
            i += n;
        } else {
            out.push(text[i]);
            proof {
                assert(rest.skip(1) =~= text@.skip(i + 1));
                assert(rest[0] == text@[i as int]);
                assert(out@ + spaced(text@.skip(i + 1)) =~= so_far + spaced(rest));
            }
            i += 1;
        }
    }
    assert(out@ + spaced(text@.skip(i as int)) =~= out@);
    out
}

/// The font size that an appearance string gives.
pub fn font_size(da: &[u8]) -> (size: Option<i64>)
    ensures
        match size {
            Some(v) => font_size_of(da@) == Some(v as int),
            None => font_size_of(da@) is None,
        },
{
    let plain = space_out(da);
    let ws = split_words(plain.as_slice());
    let mut i: usize = 1;
    if ws.len() == 0 {
        return None;
    }
    assert(size_in(views(ws@), 0) == size_in(views(ws@), 1));
    while i < ws.len()
        invariant
            1 <= i <= ws.len(),
            views(ws@) == words(spaced(da@)),
            font_size_of(da@) == size_in(views(ws@), i as int),
        decreases ws.len() - i,
    {
        assert(views(ws@)[i as int] == ws@[i as int]@);
        assert(views(ws@)[i - 1] == ws@[i - 1]@);
        if bytes_eq(ws[i].as_slice(), &TF) {
            match parse_decimal(ws[i - 1].as_slice()) {
                Some(v) => {
                    return Some(v);
                },
                None => {},
            }
        }
        i += 1;
    }
    None
}

/// The appearance string of a note with this font size.
pub fn appearance(font_size: Option<i64>) -> (da: Vec<u8>)
    ensures
        da@ == appearance_text(
            size_or_default(
                match font_size {
                    Some(v) => Some(v as int),
                    None => None,
                },
            ),
        ),
{
    let size = match font_size {
        Some(v) => v,
        None => DEFAULT_FONT_SIZE,
    };
    let mut da: Vec<u8> = Vec::new();
    da.extend_from_slice(&BLACK_HELV);
    let mut digits = format_decimal(size);
    da.append(&mut digits);
    da.extend_from_slice(&SET_FONT);
    da
}

/// Whether the word at place `i` is a `Tf` with a number before it.
pub open spec fn sets_size(ws: Seq<Seq<u8>>, i: int) -> bool {
    1 <= i < ws.len() && ws[i] == TF@ && decimal_value(ws[i - 1]) is Some
}

/// Words give no size exactly where no `Tf` among them, from place `from`
/// on, has a number before it.
pub proof fn lemma_no_size(ws: Seq<Seq<u8>>, from: int)
    requires
        0 <= from,
    ensures
        size_in(ws, from) is None <==> forall|i: int| from <= i < ws.len() ==> !sets_size(ws, i),
    decreases ws.len() - from,
{
    if from < ws.len() {
        lemma_no_size(ws, from + 1);
        if sets_size(ws, from) {
        } else {
            assert forall|i: int| from <= i < ws.len() && (forall|j: int|
                from + 1 <= j < ws.len() ==> !sets_size(ws, j)) implies !sets_size(ws, i) by {}
        }
    }
}

/// An appearance string in which no `Tf` has a number before it gives no
/// font size.
pub proof fn lemma_no_font_size(da: Seq<u8>)
    requires
        forall|i: int| 0 <= i < words(spaced(da)).len() ==> !sets_size(words(spaced(da)), i),
    ensures
        font_size_of(da) is None,
{
    lemma_no_size(words(spaced(da)), 0);
}

/// Text of bytes below 128 has no white-space character of two or three
/// bytes: it stays as it is.
pub proof fn lemma_spaced_plain(s: Seq<u8>)
    requires
        forall|i: int| 0 <= i < s.len() ==> #[trigger] s[i] < 128,
    ensures
        spaced(s) == s,
    decreases s.len(),
{
    if s.len() > 0 {
        assert(s[0] < 128);
        let rest = s.skip(1);
        assert forall|i: int| 0 <= i < rest.len() implies #[trigger] rest[i] < 128 by {
            assert(rest[i] == s[i + 1]);
        }
        lemma_spaced_plain(rest);
        assert(seq![s[0]] + rest =~= s);
    }
}

/// A note without a font size is written with the size 14:
/// `0 0 0 rg /Helv 14 Tf`.
pub proof fn lemma_default_appearance()
    ensures
        appearance_text(size_or_default(None)) == seq![
            48u8, 32, 48, 32, 48, 32, 114, 103, 32, 47, 72, 101, 108, 118, 32, 49, 52, 32, 84, 102,
        ],
{
    let digits = decimal_text(14_000);
    assert(magnitude(14_000) / 1000 == 14);
    assert(nat_text(14) =~= seq![49u8, 52]) by {
        reveal_with_fuel(nat_text, 3);
    }
    assert(digits =~= seq![49u8, 52]);
    assert(appearance_text(14_000) =~= seq![
        48u8, 32, 48, 32, 48, 32, 114, 103, 32, 47, 72, 101, 108, 118, 32, 49, 52, 32, 84, 102,
    ]);
}

/// White space after a text adds no word.
proof fn lemma_words_space(a: Seq<u8>)
    ensures
        words(a.push(32)) == words(a),
{
    assert(a.push(32).drop_last() =~= a);
}

/// A run of bytes that are no white space, after a text that does not end
/// in a word, is one more word.
proof fn lemma_words_run(a: Seq<u8>, w: Seq<u8>)
    requires
        a.len() == 0 || is_space(a.last()),
        w.len() > 0,
        forall|i: int| 0 <= i < w.len() ==> !is_space(#[trigger] w[i]),
    ensures
        words(a + w) == words(a).push(w),
    decreases w.len(),
{
    let t = a + w;
    assert(t.drop_last() =~= a + w.drop_last());
    assert(t.last() == w.last());
    if w.len() == 1 {
        assert(a + w.drop_last() =~= a);
        assert(w =~= seq![w.last()]);
        if a.len() > 0 {
            assert(t[t.len() - 2] == a.last());
        }
    } else {
        lemma_words_run(a, w.drop_last());
        assert(t[t.len() - 2] == w[w.len() - 2]);
        let before = words(a).push(w.drop_last());
        assert(before.drop_last() =~= words(a));
        assert(before.last() == w.drop_last());
        assert(w.drop_last().push(w.last()) =~= w);
    }
}

/// A word and a space, after a text that does not end in a word.
proof fn lemma_words_then(a: Seq<u8>, w: Seq<u8>)
    requires
        a.len() == 0 || is_space(a.last()),
        w.len() > 0,
        forall|i: int| 0 <= i < w.len() ==> !is_space(#[trigger] w[i]),
    ensures
        words((a + w).push(32)) == words(a).push(w),
{
    lemma_words_run(a, w);
    lemma_words_space(a + w);
}

/// The words of an appearance string as it is written.
proof fn lemma_appearance_words(size: int)
    ensures
        words(appearance_text(size)) == seq![
            seq![48u8],
            seq![48u8],
            seq![48u8],
            seq![114u8, 103],
            seq![47u8, 72, 101, 108, 118],
            decimal_text(size),
            TF@,
        ],
{
    let zero = seq![48u8];
    let rg = seq![114u8, 103];
    let helv = seq![47u8, 72, 101, 108, 118];
    let digits = decimal_text(size);
    let none = Seq::<u8>::empty();
    let a1 = (none + zero).push(32);
    let a2 = (a1 + zero).push(32);
    let a3 = (a2 + zero).push(32);
    let a4 = (a3 + rg).push(32);
    let a5 = (a4 + helv).push(32);
    let a6 = (a5 + digits).push(32);
    lemma_words_then(none, zero);
    lemma_words_then(a1, zero);
    lemma_words_then(a2, zero);
    lemma_words_then(a3, rg);
    lemma_words_then(a4, helv);
    lemma_text_bytes(size);
    lemma_words_then(a5, digits);
    lemma_words_run(a6, TF@);
    assert(a5 =~= BLACK_HELV@);
    assert(a6 + TF@ =~= appearance_text(size));
    assert(words(none) =~= Seq::<Seq<u8>>::empty());
}

/// The font size that a note is written with is the font size read from
/// what was written.
pub proof fn lemma_size_reads_back(size: int)
    requires
        i64::MIN <= size <= i64::MAX,
    ensures
        font_size_of(appearance_text(size)) == Some(size),
{
    let ws = words(appearance_text(size));
    lemma_appearance_words(size);
    lemma_text_reads_back(size);
    lemma_text_bytes(size);
    assert(spaced(appearance_text(size)) == appearance_text(size)) by {
        let text = appearance_text(size);
        let digits = decimal_text(size);
        assert forall|i: int| 0 <= i < text.len() implies #[trigger] text[i] < 128 by {
            if i < 15 {
                assert(text[i] == BLACK_HELV@[i]);
            } else if i < 15 + digits.len() {
                assert(text[i] == digits[i - 15]);
            } else {
                assert(text[i] == SET_FONT@[i - 15 - digits.len()]);
            }
        }
        lemma_spaced_plain(text);
    }
    assert(ws.len() == 7);
    assert(ws[6] == TF@);
    assert(ws[5] == decimal_text(size));
    assert(ws[5] != TF@) by {
        assert(TF@[0] == 84);
    }
    assert(ws[1] != TF@ && ws[2] != TF@ && ws[3] != TF@ && ws[4] != TF@) by {
        assert(TF@.len() == 2);
        assert(TF@[0] == 84);
    }
    assert(size_in(ws, 6) == Some(size));
    assert(size_in(ws, 5) == size_in(ws, 6));
    assert(size_in(ws, 4) == size_in(ws, 5));
    assert(size_in(ws, 3) == size_in(ws, 4));
    assert(size_in(ws, 2) == size_in(ws, 3));
    assert(size_in(ws, 1) == size_in(ws, 2));
    assert(size_in(ws, 0) == size_in(ws, 1));
}

} // verus!
