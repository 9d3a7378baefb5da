//! The lexical layer of the level format: lines, tokens, numbers.

use vstd::prelude::*;
use vstd::slice::slice_subrange;
use vstd::string::StringSliceAdditionalSpecFns;

verus! {

pub const TAB: u8 = 9;

pub const NEWLINE: u8 = 10;

pub const FORM_FEED: u8 = 12;

pub const RETURN: u8 = 13;

pub const SPACE: u8 = 32;

pub const PLUS: u8 = 43;

pub const COMMA: u8 = 44;

pub const MINUS: u8 = 45;

pub const DOT: u8 = 46;

pub const ZERO: u8 = 48;

pub const NINE: u8 = 57;

/// Whether `b` separates tokens: a space, a tab, a line feed, a form feed or
/// a carriage return.
pub open spec fn is_blank(b: u8) -> bool {
    b == SPACE || b == TAB || b == NEWLINE || b == FORM_FEED || b == RETURN
}

/// The tokens of `line` from `at` on, after those in `done`, where `word` is
/// the part of a token that was read already.
pub open spec fn tokens_from(line: Seq<u8>, at: int, word: Seq<u8>, done: Seq<Seq<u8>>) -> Seq<
    Seq<u8>,
>
    decreases line.len() - at,
{
    let closed = if word.len() > 0 {
        done.push(word)
    } else {
        done
    };
    if at < 0 || at >= line.len() {
        closed
    } else if is_blank(line[at]) {
        tokens_from(line, at + 1, Seq::empty(), closed)
    } else {
        tokens_from(line, at + 1, word.push(line[at]), done)
    }
}

/// The tokens of `line`: its maximal runs of bytes that are not blank, in
/// their order.
pub open spec fn tokens_of(line: Seq<u8>) -> Seq<Seq<u8>> {
    tokens_from(line, 0, Seq::empty(), Seq::empty())
}

/// The pieces of `word` from `at` on that commas separate, after those in
/// `done`, where `piece` is the part of a piece that was read already.
pub open spec fn pieces_from(word: Seq<u8>, at: int, piece: Seq<u8>, done: Seq<Seq<u8>>) -> Seq<
    Seq<u8>,
>
    decreases word.len() - at,
{
    if at < 0 || at >= word.len() {
        done.push(piece)
    } else if word[at] == COMMA {
        pieces_from(word, at + 1, Seq::empty(), done.push(piece))
    } else {
        pieces_from(word, at + 1, piece.push(word[at]), done)
    }
}

/// The pieces of `word` that commas separate: one more than there are commas.
pub open spec fn pieces_of(word: Seq<u8>) -> Seq<Seq<u8>> {
    pieces_from(word, 0, Seq::empty(), Seq::empty())
}

/// The number of tabs that `line` starts with, counted from `at`.
pub open spec fn tabs_from(line: Seq<u8>, at: int) -> int
    decreases line.len() - at,
{
    if at < 0 || at >= line.len() || line[at] != TAB {
        0
    } else {
        1 + tabs_from(line, at + 1)
    }
}

/// The index of the first line feed at or after `at`, or the length of
/// `text` if there is none.
pub open spec fn line_end(text: Seq<u8>, at: int) -> int
    decreases text.len() - at,
{
    if at < 0 || at >= text.len() {
        text.len() as int
    } else if text[at] == NEWLINE {
        at
    } else {
        line_end(text, at + 1)
    }
}

/// The line of `text` that starts at `at`: the bytes up to the next line
/// feed, without a carriage return at their end.
pub open spec fn line_at(text: Seq<u8>, at: int) -> Seq<u8> {
    let end = line_end(text, at);
    if at < end && text[end - 1] == RETURN {
        text.subrange(at, end - 1)
    } else {
        text.subrange(at, end)
    }
}

/// A line ends at or after its start, and within the text.
pub proof fn lemma_line_end(text: Seq<u8>, at: int)
    requires
        0 <= at <= text.len(),
    ensures
        at <= line_end(text, at) <= text.len(),
    decreases text.len() - at,
{
    if at < text.len() && text[at] != NEWLINE {
        lemma_line_end(text, at + 1);
    }
}

pub open spec fn is_digit(b: u8) -> bool {
    ZERO <= b <= NINE
}

pub open spec fn all_digits(s: Seq<u8>) -> bool {
    forall|i: int| 0 <= i < s.len() ==> is_digit(#[trigger] s[i])
}

/// The number that the decimal digits `s` write.
pub open spec fn digits_value(s: Seq<u8>) -> int
    decreases s.len(),
{
    if s.len() == 0 {
        0
    } else {
        digits_value(s.drop_last()) * 10 + (s.last() - ZERO)
    }
}

/// The integer that `token` writes: an optional sign, and then at least one
/// decimal digit and nothing else.
pub open spec fn integer_of(token: Seq<u8>) -> Option<int> {
    let signed = token.len() > 0 && (token[0] == MINUS || token[0] == PLUS);
    let digits = if signed {
        token.subrange(1, token.len() as int)
    } else {
        token
    };
    if digits.len() == 0 || !all_digits(digits) {
        None
    } else if token[0] == MINUS {
        Some(-digits_value(digits))
    } else {
        Some(digits_value(digits))
    }
}

/// The integer that `token` writes, if it is one of 32 bits.
pub open spec fn i32_of(token: Seq<u8>) -> Option<i32> {
    match integer_of(token) {
        Some(v) => if i32::MIN <= v <= i32::MAX {
            Some(v as i32)
        } else {
            None
        },
        None => None,
    }
}

/// The integer that `token` writes, if it is an unsigned one of 32 bits.
pub open spec fn u32_of(token: Seq<u8>) -> Option<u32> {
    match integer_of(token) {
        Some(v) => if 0 <= v <= u32::MAX {
            Some(v as u32)
        } else {
            None
        },
        None => None,
    }
}

/// The index of the first dot in `token` at or after `at`, or the length of
/// `token` if there is none.
pub open spec fn dot_from(token: Seq<u8>, at: int) -> int
    decreases token.len() - at,
{
    if at < 0 || at >= token.len() {
        token.len() as int
    } else if token[at] == DOT {
        at
    } else {
        dot_from(token, at + 1)
    }
}

/// The first three digits after the dot, as a number of thousandths.
pub open spec fn thousandths(fraction: Seq<u8>) -> int {
    if fraction.len() == 0 {
        0
    } else if fraction.len() == 1 {
        digits_value(fraction) * 100
    } else if fraction.len() == 2 {
        digits_value(fraction) * 10
    } else {
        digits_value(fraction.take(3))
    }
}

/// The decimal number that `token` writes, in thousandths, rounded towards
/// zero: at least one digit, and then optionally a dot and more digits. The
/// part before the dot is at most a million.
pub open spec fn milli_of(token: Seq<u8>) -> Option<i32> {
    let dot = dot_from(token, 0);
    let whole = token.take(dot);
    let fraction = if dot < token.len() {
        token.skip(dot + 1)
    } else {
        Seq::empty()
    };
    if whole.len() == 0 || !all_digits(whole) || !all_digits(fraction) || digits_value(whole)
        > 1_000_000 {
        None
    } else {
        Some((digits_value(whole) * 1000 + thousandths(fraction)) as i32)
    }
}

/// The number that digits write is not negative, and it does not get
/// smaller when more digits follow.
pub proof fn lemma_digits_value(s: Seq<u8>, k: int)
    requires
        all_digits(s),
        0 <= k <= s.len(),
    ensures
        0 <= digits_value(s.take(k)) <= digits_value(s),
    decreases s.len() - k,
{
    lemma_digits_nonnegative(s.take(k));
    if k < s.len() {
        lemma_digits_value(s, k + 1);
        assert(s.take(k + 1).drop_last() =~= s.take(k));
        assert(is_digit(s[k]));
    } else {
        assert(s.take(k) =~= s);
    }
}

/// The number that digits write is not negative.
pub proof fn lemma_digits_nonnegative(s: Seq<u8>)
    requires
        all_digits(s),
    ensures
        0 <= digits_value(s),
    decreases s.len(),
{
    if s.len() > 0 {
        lemma_digits_nonnegative(s.drop_last());
        assert(is_digit(s[s.len() - 1]));
    }
}

/// The views of the vectors of a vector of vectors.
pub open spec fn views(v: Seq<Vec<u8>>) -> Seq<Seq<u8>> {
    Seq::new(v.len(), |i: int| v[i]@)
}

/// Whether two runs of bytes are the same.
pub fn same_bytes(a: &[u8], b: &[u8]) -> (r: bool)
    ensures
        r == (a@ == b@),
{
    if a.len() != b.len() {
        return false;
    }
    let mut i: usize = 0;
    while i < a.len()
        invariant
            0 <= i <= a@.len(),
            a@.len() == b@.len(),
            forall|k: int| 0 <= k < i ==> a@[k] == b@[k],
        decreases a@.len() - i,
    {
        if a[i] != b[i] {
            return false;
        }
        i += 1;
    }
    assert(a@ =~= b@);
    true
}

/// Whether `token` is the word `word`.
pub fn is_word(token: &Vec<u8>, word: &str) -> (r: bool)
    ensures
        r == (token@ == word.spec_bytes()),
{
    same_bytes(token.as_slice(), word.as_bytes())
}

/// Computes [`is_blank`].
pub fn blank(b: u8) -> (r: bool)
    ensures
        r == is_blank(b),
{
    b == SPACE || b == TAB || b == NEWLINE || b == FORM_FEED || b == RETURN
}

/// Computes [`tokens_of`].
pub fn tokenize(line: &[u8]) -> (tokens: Vec<Vec<u8>>)
    ensures
        views(tokens@) == tokens_of(line@),
        forall|i: int| 0 <= i < tokens@.len() ==> (#[trigger] tokens@[i])@.len() > 0,
{
    let mut tokens: Vec<Vec<u8>> = Vec::new();
    let mut word: Vec<u8> = Vec::new();
    let mut at: usize = 0;
    assert(views(tokens@) =~= Seq::empty());
    while at < line.len()
        invariant
            0 <= at <= line@.len(),
            tokens_of(line@) == tokens_from(line@, at as int, word@, views(tokens@)),
            forall|i: int| 0 <= i < tokens@.len() ==> (#[trigger] tokens@[i])@.len() > 0,
        decreases line@.len() - at,
    {
        let b = line[at];
        if blank(b) {
            if word.len() > 0 {
                let ghost before = views(tokens@);
                let ghost w = word@;
                let mut closed: Vec<u8> = Vec::new();
                core::mem::swap(&mut word, &mut closed);
                tokens.push(closed);
                assert(views(tokens@) =~= before.push(w));
            }
            assert(word@ =~= Seq::empty());
        } else {
            word.push(b);
        }
        at += 1;
    }
    if word.len() > 0 {
        let ghost before = views(tokens@);
        let ghost w = word@;
        tokens.push(word);
        assert(views(tokens@) =~= before.push(w));
    }
    tokens
}

/// Computes [`pieces_of`].
pub fn split_commas(word: &Vec<u8>) -> (pieces: Vec<Vec<u8>>)
    ensures
        views(pieces@) == pieces_of(word@),
{
    let mut pieces: Vec<Vec<u8>> = Vec::new();
    let mut piece: Vec<u8> = Vec::new();
    let mut at: usize = 0;
    assert(views(pieces@) =~= Seq::empty());
    while at < word.len()
        invariant
            0 <= at <= word@.len(),
            pieces_of(word@) == pieces_from(word@, at as int, piece@, views(pieces@)),
        decreases word@.len() - at,
    {
        let b = word[at];
        if b == COMMA {
            let ghost before = views(pieces@);
            let ghost p = piece@;
            let mut closed: Vec<u8> = Vec::new();
            core::mem::swap(&mut piece, &mut closed);
            pieces.push(closed);
            assert(views(pieces@) =~= before.push(p));
        } else {
            piece.push(b);
        }
        at += 1;
    }
    let ghost before = views(pieces@);
    let ghost p = piece@;
    pieces.push(piece);
    assert(views(pieces@) =~= before.push(p));
    pieces
}

/// Computes [`tabs_from`] from the start of the line.
pub fn leading_tabs(line: &[u8]) -> (depth: usize)
    ensures
        depth == tabs_from(line@, 0),
{
    let mut at: usize = 0;
    while at < line.len() && line[at] == TAB
        invariant
            0 <= at <= line@.len(),
            tabs_from(line@, 0) == at + tabs_from(line@, at as int),
        decreases line@.len() - at,
    {
        at += 1;
    }
    at
}

/// Computes [`line_end`].
pub fn find_line_end(text: &[u8], at: usize) -> (end: usize)
    requires
        at <= text@.len(),
    ensures
        end == line_end(text@, at as int),
        at <= end <= text@.len(),
{
    let mut end: usize = at;
    while end < text.len() && text[end] != NEWLINE
        invariant
            at <= end <= text@.len(),
            line_end(text@, at as int) == line_end(text@, end as int),
        decreases text@.len() - end,
    {
        end += 1;
    }
    end
}

/// Computes [`line_at`], given where the line ends.
pub fn line_of<'a>(text: &'a [u8], at: usize, end: usize) -> (line: &'a [u8])
    requires
        at <= text@.len(),
        end == line_end(text@, at as int),
    ensures
        line@ == line_at(text@, at as int),
{
    proof {
        lemma_line_end(text@, at as int);
    }
    if at < end && text[end - 1] == RETURN {
        slice_subrange(text, at, end - 1)
    } else {
        slice_subrange(text, at, end)
    }
}

/// The number that the digits of `token` from `from` on write, if it is at
/// most `limit`.
fn read_digits(token: &[u8], from: usize, limit: i64) -> (r: Option<i64>)
    requires
        from <= token@.len(),
        0 <= limit <= 0x1_0000_0000_0000,
    ensures
        r == (if from < token@.len() && all_digits(token@.skip(from as int)) && digits_value(
            token@.skip(from as int),
        ) <= limit {
            Some(digits_value(token@.skip(from as int)) as i64)
        } else {
            None
        }),
{
    if from >= token.len() {
        return None;
    }
    let ghost digits = token@.skip(from as int);
    let mut value: i64 = 0;
    let mut at: usize = from;
    assert(digits.take(0) =~= Seq::empty());
    while at < token.len()
        invariant
            from <= at <= token@.len(),
            digits == token@.skip(from as int),
            all_digits(digits.take(at - from)),
            value == digits_value(digits.take(at - from)),
            0 <= value <= limit,
            0 <= limit <= 0x1_0000_0000_0000,
        decreases token@.len() - at,
    {
        let b = token[at];
        assert(digits[at - from] == b);
        assert(digits.take(at - from + 1).drop_last() =~= digits.take(at - from));
        if b < ZERO || b > NINE {
            assert(!is_digit(digits[at - from]));
            return None;
        }
        let next = value * 10 + (b - ZERO) as i64;
        assert(all_digits(digits.take(at - from + 1))) by {
            assert forall|i: int| 0 <= i < at - from + 1 implies is_digit(
                #[trigger] digits.take(at - from + 1)[i],
            ) by {
                if i < at - from {
                    assert(digits.take(at - from)[i] == digits[i]);
                }
            }
        }
        if next > limit {
            proof {
                if all_digits(digits) {
                    lemma_digits_value(digits, at - from + 1);
                }
            }
            return None;
        }
        value = next;
        at += 1;
    }
    assert(digits.take(at - from) =~= digits);
    Some(value)
}

/// Computes [`i32_of`].
pub fn parse_i32(token: &Vec<u8>) -> (r: Option<i32>)
    ensures
        r == i32_of(token@),
{
    let bytes = token.as_slice();
    if bytes.len() == 0 {
        return None;
    }
    let signed = bytes[0] == MINUS || bytes[0] == PLUS;
    let from: usize = if signed {
        1
    } else {
        0
    };
    proof {
        if signed {
            assert(bytes@.skip(1) =~= bytes@.subrange(1, bytes@.len() as int));
        } else {
            assert(bytes@.skip(0) =~= bytes@);
        }
        if all_digits(bytes@.skip(from as int)) {
            lemma_digits_nonnegative(bytes@.skip(from as int));
        }
    }
    match read_digits(bytes, from, 0x8000_0000) {
        None => None,
        Some(v) => {
            if bytes[0] == MINUS {
                Some((-v) as i32)
            } else if v > i32::MAX as i64 {
                None
            } else {
                Some(v as i32)
            }
        },
    }
}

/// Computes [`u32_of`].
pub fn parse_u32(token: &Vec<u8>) -> (r: Option<u32>)
    ensures
        r == u32_of(token@),
{
    let bytes = token.as_slice();
    if bytes.len() == 0 {
        return None;
    }
    let signed = bytes[0] == MINUS || bytes[0] == PLUS;
    let from: usize = if signed {
        1
    } else {
        0
    };
    proof {
        if signed {
            assert(bytes@.skip(1) =~= bytes@.subrange(1, bytes@.len() as int));
        } else {
            assert(bytes@.skip(0) =~= bytes@);
        }
        if all_digits(bytes@.skip(from as int)) {
            lemma_digits_nonnegative(bytes@.skip(from as int));
        }
    }
    match read_digits(bytes, from, 0xffff_ffff) {
        None => None,
        Some(v) => {
            if bytes[0] == MINUS && v != 0 {
                None
            } else {
                Some(v as u32)
            }
        },
    }
}

/// Computes [`milli_of`].
pub fn parse_milli(token: &Vec<u8>) -> (r: Option<i32>)
    ensures
        r == milli_of(token@),
{
    let bytes = token.as_slice();
    let mut dot: usize = 0;
    while dot < bytes.len() && bytes[dot] != DOT
        invariant
            0 <= dot <= bytes@.len(),
            dot_from(bytes@, 0) == dot_from(bytes@, dot as int),
        decreases bytes@.len() - dot,
    {
        dot += 1;
    }
    let whole = slice_subrange(bytes, 0, dot);
    assert(whole@ =~= bytes@.take(dot as int));
    assert(whole@.skip(0) =~= whole@);
    let value = match read_digits(whole, 0, 1_000_000) {
        Some(v) => v,
        None => return None,
    };
    proof {
        lemma_digits_nonnegative(whole@);
    }
    let ghost spec_fraction = if dot < bytes@.len() {
        bytes@.skip(dot + 1)
    } else {
        Seq::<u8>::empty()
    };
    let from: usize = if dot < bytes.len() {
        dot + 1
    } else {
        dot
    };
    let fraction = slice_subrange(bytes, from, bytes.len());
    proof {
        if dot < bytes@.len() {
            assert(fraction@ =~= bytes@.skip(dot + 1));
        } else {
            assert(fraction@ =~= Seq::<u8>::empty());
        }
    }
    let mut part: i64 = 0;
    let mut at: usize = 0;
    assert(fraction@.take(0) =~= Seq::<u8>::empty());
    while at < fraction.len()
        invariant
            0 <= at <= fraction@.len(),
            bytes@ == token@,
            dot == dot_from(bytes@, 0),
            fraction@ == spec_fraction,
            spec_fraction == (if dot < bytes@.len() {
                bytes@.skip(dot + 1)
            } else {
                Seq::<u8>::empty()
            }),
            whole@ == bytes@.take(dot as int),
            whole@.len() > 0,
            all_digits(whole@),
            value == digits_value(whole@),
            0 <= value <= 1_000_000,
            all_digits(fraction@.take(at as int)),
            part == digits_value(
                fraction@.take(
                    if at < 3 {
                        at as int
                    } else {
                        3
                    },
                ),
            ),
            0 <= part <= 999,
            at == 0 ==> part == 0,
            at == 1 ==> part <= 9,
            at == 2 ==> part <= 99,
        decreases fraction@.len() - at,
    {
        let b = fraction[at];
        if b < ZERO || b > NINE {
            assert(!is_digit(fraction@[at as int]));
            return None;
        }
        assert(all_digits(fraction@.take(at + 1))) by {
            assert forall|i: int| 0 <= i < at + 1 implies is_digit(
                #[trigger] fraction@.take(at + 1)[i],
            ) by {
                if i < at {
                    assert(fraction@.take(at as int)[i] == fraction@[i]);
                }
            }
        }
        if at < 3 {
            assert(fraction@.take(at + 1).drop_last() =~= fraction@.take(at as int));
            part = part * 10 + (b - ZERO) as i64;
        }
        at += 1;
    }
    assert(fraction@.take(at as int) =~= fraction@);
    let scaled: i64 = if at == 0 {
        0
    } else if at == 1 {
        part * 100
    } else if at == 2 {
        part * 10
    } else {
        part
    };
    Some((value * 1000 + scaled) as i32)
}

} // verus!
