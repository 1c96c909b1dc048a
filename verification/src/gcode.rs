//! The G-code tokenizer: program text to lines of typed words.
//!
//! A program is a sequence of lines separated by line feeds. A line is a
//! sequence of words, with any blanks (space, tab, carriage return) between
//! them. A word is one ASCII letter immediately followed by a decimal number.

use crate::decimal::{
    abs, decimal_digits, fixed_text, lemma_number_at_bounds, lemma_number_at_fixed_text,
    lemma_number_at_shift, lemma_number_at_whole, lemma_pow10_positive, lemma_pow10_values,
    number_at, number_of_fixed, pow10, readable, scan_number, Number,
};
use vstd::prelude::*;
use vstd::string::StringSliceAdditionalSpecFns;

verus! {

/// One word of a line: a letter and the number that follows it.
#[derive(Clone, Copy, Debug, PartialEq, Eq, Structural)]
pub struct Word {
    /// The letter, in upper case.
    pub letter: char,
    /// The number, in millionths.
    pub value: i64,
    /// The digits before the decimal point.
    pub major: u32,
    /// The digits after the decimal point, read as an integer of their own;
    /// zero when there were none.
    pub minor: u32,
    /// How many digits stood after the decimal point.
    pub frac_digits: usize,
    /// Whether the number was written with a minus sign.
    pub negative: bool,
}

impl Word {
    /// The number of this word, as it was written.
    pub open spec fn number(self) -> Number {
        Number {
            negative: self.negative,
            major: self.major,
            minor: self.minor,
            frac_digits: self.frac_digits,
        }
    }

    /// The word that `letter` and `n` make.
    pub open spec fn of(letter: u8, n: Number) -> Word {
        Word {
            letter: upper(letter) as char,
            value: n.fixed() as i64,
            major: n.major,
            minor: n.minor,
            frac_digits: n.frac_digits,
            negative: n.negative,
        }
    }

    /// A word is consistent when its value is the one its digits write.
    pub open spec fn consistent(self) -> bool {
        &&& self.value == self.number().fixed()
        &&& self.frac_digits == 0 ==> self.minor == 0
    }
}

/// One line of a program: its text and the words read from it.
#[derive(Debug)]
pub struct GCodeLine {
    /// The text of the line, without its line feed.
    pub line: Vec<u8>,
    /// The words of the line, in the order written.
    pub words: Vec<Word>,
}

/// Whether `b` is an ASCII letter.
pub open spec fn is_letter(b: u8) -> bool {
    0x41 <= b <= 0x5a || 0x61 <= b <= 0x7a
}

/// The upper-case form of an ASCII letter; other bytes are unchanged.
pub open spec fn upper(b: u8) -> u8 {
    if 0x61 <= b <= 0x7a {
        (b - 0x20) as u8
    } else {
        b
    }
}

/// Whether `b` may separate words: a space, a tab or a carriage return.
pub open spec fn is_blank(b: u8) -> bool {
    b == 0x20 || b == 0x09 || b == 0x0d
}

/// How many blanks stand in a row from position `i` on.
pub open spec fn blank_run(s: Seq<u8>, i: int) -> nat
    decreases s.len() - i,
{
    if 0 <= i < s.len() && is_blank(s[i]) {
        1 + blank_run(s, i + 1)
    } else {
        0
    }
}

/// The word written at position `i` and the position just past it.
pub open spec fn word_at(s: Seq<u8>, i: int) -> Option<(Word, int)> {
    if 0 <= i < s.len() && is_letter(s[i]) {
        match number_at(s, i + 1) {
            Some((n, end)) => Some((Word::of(s[i], n), end)),
            None => None,
        }
    } else {
        None
    }
}

/// The words written from position `i` to the end of `s`, or `None` where
/// something other than blanks and words stands there.
pub open spec fn words_from(s: Seq<u8>, i: int) -> Option<Seq<Word>>
    decreases s.len() - i,
{
    let j = i + blank_run(s, i);
    if j >= s.len() {
        Some(Seq::empty())
    } else {
        match word_at(s, j) {
            Some((w, k)) => if j < k <= s.len() {
                match words_from(s, k) {
                    Some(rest) => Some(seq![w] + rest),
                    None => None,
                }
            } else {
                None
            },
            None => None,
        }
    }
}

/// The words of a whole line of text.
pub open spec fn line_words(s: Seq<u8>) -> Option<Seq<Word>> {
    words_from(s, 0)
}

/// How many bytes stand before the next line feed, from position `i` on.
pub open spec fn line_len(s: Seq<u8>, i: int) -> nat
    decreases s.len() - i,
{
    if 0 <= i < s.len() && s[i] != 0x0a {
        1 + line_len(s, i + 1)
    } else {
        0
    }
}

/// The lines of `s` from position `i` on, each without its line feed. A line
/// feed at the very end starts no further line.
pub open spec fn lines_from(s: Seq<u8>, i: int) -> Seq<Seq<u8>>
    decreases s.len() - i,
{
    if 0 <= i < s.len() {
        let e = i + line_len(s, i);
        if e < s.len() {
            seq![s.subrange(i, e)] + lines_from(s, e + 1)
        } else {
            seq![s.subrange(i, e)]
        }
    } else {
        Seq::empty()
    }
}

/// The lines of a program text.
pub open spec fn program_lines(s: Seq<u8>) -> Seq<Seq<u8>> {
    lines_from(s, 0)
}

/// The value of the first word in `words` at or after position `i` whose
/// letter is `c`.
pub open spec fn value_from(words: Seq<Word>, c: char, i: int) -> Option<i64>
    decreases words.len() - i,
{
    if 0 <= i < words.len() {
        if words[i].letter == c {
            Some(words[i].value)
        } else {
            value_from(words, c, i + 1)
        }
    } else {
        None
    }
}

impl GCodeLine {
    /// Whether the words are those that the text writes.
    pub open spec fn parsed(&self) -> bool {
        line_words(self.line@) == Some(self.words@)
    }

    /// The value of the first word with letter `c`, if the line has one.
    pub fn value_for(&self, c: char) -> (r: Option<i64>)
        ensures
            r == value_from(self.words@, c, 0),
    {
        let mut i: usize = 0;
        while i < self.words.len()
            invariant
                i <= self.words.len(),
                value_from(self.words@, c, 0) == value_from(self.words@, c, i as int),
            decreases self.words.len() - i,
        {
            if self.words[i].letter == c {
                return Some(self.words[i].value);
            }
            i = i + 1;
        }
        None
    }

    /// The letter of the first word.
    pub fn mnemonic(&self) -> (r: char)
        requires
            self.words@.len() > 0,
        ensures
            r == self.words@[0].letter,
    {
        self.words[0].letter
    }

    /// The digits before the point in the first word.
    pub fn major(&self) -> (r: u32)
        requires
            self.words@.len() > 0,
        ensures
            r == self.words@[0].major,
    {
        self.words[0].major
    }

    /// The digits after the point in the first word.
    pub fn minor(&self) -> (r: u32)
        requires
            self.words@.len() > 0,
        ensures
            r == self.words@[0].minor,
    {
        self.words[0].minor
    }
}

/// The tokenizer for lines of G-code.
pub struct GCodeParser;

impl GCodeParser {
    /// Reads the word written at `start`.
    pub fn word(s: &[u8], start: usize) -> (r: Option<(Word, usize)>)
        requires
            start <= s.len(),
        ensures
            match r {
                Some((w, end)) => word_at(s@, start as int) == Some((w, end as int)) && start < end
                    <= s.len() && w.consistent(),
                None => word_at(s@, start as int).is_none(),
            },
    {
        if start >= s.len() {
            return None;
        }
        let b: u8 = s[start];
        let lower = b >= 0x61 && b <= 0x7a;
        if !(lower || (b >= 0x41 && b <= 0x5a)) {
            return None;
        }
        let letter: u8 = if lower {
            b - 0x20
        } else {
            b
        };
        match scan_number(s, start + 1) {
            Some((n, end)) => {
                let value = n.to_fixed();
                proof {
                    crate::decimal::lemma_number_at_bounds(s@, start + 1);
                }
                Some(
                    (
                        Word {
                            letter: letter as char,
                            value,
                            major: n.major,
                            minor: n.minor,
                            frac_digits: n.frac_digits,
                            negative: n.negative,
                        },
                        end,
                    ),
                )
            },
            None => None,
        }
    }

    /// Reads the words of one line of text.
    ///
    /// Returns `None` exactly when the text holds something other than
    /// blanks and well-formed words.
    pub fn line(s: &[u8]) -> (r: Option<Vec<Word>>)
        ensures
            match r {
                Some(words) => line_words(s@) == Some(words@) && forall|k: int|
                    0 <= k < words@.len() ==> (#[trigger] words@[k]).consistent(),
                None => line_words(s@).is_none(),
            },
    {
        let mut words: Vec<Word> = Vec::new();
        let mut i: usize = 0;
        loop
            invariant
                i <= s.len(),
                forall|k: int| 0 <= k < words@.len() ==> (#[trigger] words@[k]).consistent(),
                line_words(s@) == match words_from(s@, i as int) {
                    Some(rest) => Some(words@ + rest),
                    None => None,
                },
            decreases s.len() - i,
        {
            let ghost from = i as int;
            while i < s.len() && (s[i] == 0x20 || s[i] == 0x09 || s[i] == 0x0d)
                invariant
                    from <= i <= s.len(),
                    from + blank_run(s@, from) == i + blank_run(s@, i as int),
                decreases s.len() - i,
            {
                i = i + 1;
            }
            if i >= s.len() {
                assert(words@ + Seq::<Word>::empty() =~= words@);
                return Some(words);
            }
            match Self::word(s, i) {
                Some((w, end)) => {
                    proof {
                        let rest = words_from(s@, end as int);
                        if rest.is_some() {
                            assert(words@.push(w) + rest.unwrap() =~= words@ + (seq![w]
                                + rest.unwrap()));
                        }
                    }
                    words.push(w);
                    i = end;
                },
                None => {
                    return None;
                },
            }
        }
    }
}

/// Copies the line that starts at `i` out of `bytes`, and says where the
/// next line starts.
pub fn take_line(bytes: &[u8], i: usize) -> (r: (Vec<u8>, usize))
    requires
        i < bytes.len(),
    ensures
        r.0@ == bytes@.subrange(i as int, i + line_len(bytes@, i as int)),
        i < r.1 <= bytes.len(),
        lines_from(bytes@, i as int) == seq![r.0@] + lines_from(bytes@, r.1 as int),
{
    let mut text: Vec<u8> = Vec::new();
    let mut e: usize = i;
    while e < bytes.len() && bytes[e] != 0x0a
        invariant
            i <= e <= bytes.len(),
            i + line_len(bytes@, i as int) == e + line_len(bytes@, e as int),
            text@ == bytes@.subrange(i as int, e as int),
        decreases bytes.len() - e,
    {
        text.push(bytes[e]);
        e = e + 1;
    }
    let next: usize = if e < bytes.len() {
        e + 1
    } else {
        e
    };
    proof {
        assert(lines_from(bytes@, i as int) =~= seq![text@] + lines_from(bytes@, next as int));
    }
    (text, next)
}

/// The views of the texts.
pub open spec fn texts_of(lines: Seq<Vec<u8>>) -> Seq<Seq<u8>> {
    Seq::new(lines.len(), |k: int| lines[k]@)
}

/// Splits a program text into its lines, each without its line feed.
pub fn split_lines(bytes: &[u8]) -> (lines: Vec<Vec<u8>>)
    ensures
        texts_of(lines@) == program_lines(bytes@),
{
    let mut lines: Vec<Vec<u8>> = Vec::new();
    let mut i: usize = 0;
    while i < bytes.len()
        invariant
            i <= bytes.len(),
            program_lines(bytes@) =~= texts_of(lines@) + lines_from(bytes@, i as int),
        decreases bytes.len() - i,
    {
        let (text, next) = take_line(bytes, i);
        proof {
            assert(texts_of(lines@.push(text)) =~= texts_of(lines@) + seq![text@]);
        }
        lines.push(text);
        i = next;
    }
    assert(texts_of(lines@) =~= program_lines(bytes@));
    lines
}

/// Reads a whole program: every line of `program`, in order.
///
/// Returns `Err(k)` where line `k` (counting from zero) is the first that is
/// malformed.
pub fn parse(program: &str) -> (r: Result<Vec<GCodeLine>, usize>)
    ensures
        match r {
            Ok(lines) => {
                &&& lines@.len() == program_lines(program.spec_bytes()).len()
                &&& forall|k: int|
                    0 <= k < lines@.len() ==> {
                        &&& (#[trigger] lines@[k]).line@ == program_lines(program.spec_bytes())[k]
                        &&& lines@[k].parsed()
                        &&& forall|j: int|
                            0 <= j < lines@[k].words@.len() ==> (#[trigger] lines@[k].words@[j]).consistent()
                    }
            },
            Err(k) => {
                &&& k < program_lines(program.spec_bytes()).len()
                &&& line_words(program_lines(program.spec_bytes())[k as int]).is_none()
                &&& forall|j: int|
                    0 <= j < k ==> line_words(
                        #[trigger] program_lines(program.spec_bytes())[j],
                    ).is_some()
            },
        },
{
    let bytes = program.as_bytes();
    let ghost all = program_lines(bytes@);
    let mut lines: Vec<GCodeLine> = Vec::new();
    let mut i: usize = 0;
    while i < bytes.len()
        invariant
            i <= bytes.len(),
            bytes@ == program.spec_bytes(),
            all == program_lines(bytes@),
            lines@.len() <= all.len(),
            all =~= all.subrange(0, lines@.len() as int) + lines_from(bytes@, i as int),
            forall|k: int|
                0 <= k < lines@.len() ==> {
                    &&& (#[trigger] lines@[k]).line@ == all[k]
                    &&& lines@[k].parsed()
                    &&& forall|j: int|
                        0 <= j < lines@[k].words@.len() ==> (#[trigger] lines@[k].words@[j]).consistent()
                },
        decreases bytes.len() - i,
    {
        let (text, next) = take_line(bytes, i);
        let ghost n = lines@.len() as int;
        proof {
            let rest = lines_from(bytes@, next as int);
            assert(all[n] == text@);
            assert(all.subrange(0, n + 1) =~= all.subrange(0, n) + seq![text@]);
            assert(all =~= all.subrange(0, n + 1) + rest);
        }
        match GCodeParser::line(text.as_slice()) {
            Some(words) => {
                lines.push(GCodeLine { line: text, words });
            },
            None => {
                proof {
                    assert forall|j: int| 0 <= j < n implies line_words(#[trigger] all[j]).is_some() by {
                        assert(lines@[j].parsed());
                    }
                }
                return Err(lines.len());
            },
        }
        i = next;
    }
    proof {
        assert(all =~= all.subrange(0, lines@.len() as int));
    }
    Ok(lines)
}

/// The value of a word is what its digits write, in millionths: the digits
/// before the point plus the digits after it over ten to their number, with
/// the sign of the word. Where no more than six digits stand after the point
/// the value is exact; else it is cut off below a millionth.
pub proof fn lemma_word_value(w: Word)
    requires
        w.consistent(),
    ensures
        w.negative ==> w.value <= 0,
        !w.negative ==> w.value >= 0,
        abs(w.value as int) * pow10(w.frac_digits as nat) <= (w.major * pow10(w.frac_digits as nat)
            + w.minor) * 1_000_000 < (abs(w.value as int) + 1) * pow10(w.frac_digits as nat),
        w.frac_digits <= 6 ==> abs(w.value as int) * pow10(w.frac_digits as nat) == (w.major
            * pow10(w.frac_digits as nat) + w.minor) * 1_000_000,
{
    let p = pow10(w.frac_digits as nat) as int;
    let x: int = w.minor * 1_000_000;
    let q = x / p;
    let major = w.major as int;
    let minor = w.minor as int;
    lemma_pow10_positive(w.frac_digits as nat);
    vstd::arithmetic::div_mod::lemma_fundamental_div_mod(x, p);
    vstd::arithmetic::div_mod::lemma_mod_bound(x, p);
    assert(q >= 0) by (nonlinear_arith)
        requires
            q == x / p,
            x >= 0,
            p >= 1,
    ;
    assert(abs(w.value as int) == major * 1_000_000 + q);
    assert((major * 1_000_000 + q) * p == (major * p + minor) * 1_000_000 - x % p)
        by (nonlinear_arith)
        requires
            x == p * q + x % p,
            x == minor * 1_000_000,
    ;
    assert((major * 1_000_000 + q + 1) * p == (major * p + minor) * 1_000_000 - x % p + p)
        by (nonlinear_arith)
        requires
            x == p * q + x % p,
            x == minor * 1_000_000,
    ;
    if w.frac_digits <= 6 {
        lemma_pow10_values();
        let k: int = 1_000_000int / p;
        crate::decimal::lemma_pow10_divides_scale(w.frac_digits as nat);
        assert(x == (minor * k) * p) by (nonlinear_arith)
            requires
                x == minor * 1_000_000,
                k * p == 1_000_000,
        ;
        vstd::arithmetic::div_mod::lemma_mod_multiples_basic(minor * k, p);
    }
}

/// Blanks run the same length whether they are counted in a text or in what
/// is left of the text from `q` on.
pub proof fn lemma_blank_run_shift(s: Seq<u8>, q: int, i: int)
    requires
        0 <= q <= s.len(),
        0 <= i,
    ensures
        blank_run(s, q + i) == blank_run(s.subrange(q, s.len() as int), i),
    decreases s.len() - q - i,
{
    let t = s.subrange(q, s.len() as int);
    if i < t.len() && is_blank(t[i]) {
        lemma_blank_run_shift(s, q, i + 1);
    }
}

/// Words read the same whether they are looked for in a text or in what is
/// left of the text from `q` on.
pub proof fn lemma_words_shift(s: Seq<u8>, q: int, i: int)
    requires
        0 <= q <= s.len(),
        0 <= i,
    ensures
        words_from(s, q + i) == words_from(s.subrange(q, s.len() as int), i),
    decreases s.len() - q - i,
{
    let t = s.subrange(q, s.len() as int);
    lemma_blank_run_shift(s, q, i);
    let j = i + blank_run(t, i);
    if j < t.len() && is_letter(t[j]) {
        lemma_number_at_shift(s, q, j + 1);
        lemma_number_at_bounds(t, j + 1);
        match number_at(t, j + 1) {
            Some((n, e)) => {
                lemma_words_shift(s, q, e);
            },
            None => {},
        }
    }
}

/// The word that a letter makes with a number written with six decimal
/// places.
pub open spec fn value_word(letter: u8, v: int) -> Word {
    Word::of(letter, number_of_fixed(v))
}

/// The word that a letter makes with a whole number.
pub open spec fn code_word(letter: u8, n: nat) -> Word {
    Word::of(letter, Number { negative: false, major: n as u32, minor: 0, frac_digits: 0 })
}

/// The words `rest` with the word `w` before them.
pub open spec fn word_then(w: Word, rest: Option<Seq<Word>>) -> Option<Seq<Word>> {
    match rest {
        Some(r) => Some(seq![w] + r),
        None => None,
    }
}

/// A letter followed by a number written with six decimal places reads as
/// one word, and what follows it reads as it would on its own, where that
/// is nothing or starts with a letter.
pub proof fn lemma_value_word(letter: u8, v: int, rest: Seq<u8>)
    requires
        is_letter(letter),
        readable(v),
        rest.len() == 0 || is_letter(rest[0]),
    ensures
        line_words(seq![letter] + fixed_text(v) + rest) == word_then(
            value_word(letter, v),
            line_words(rest),
        ),
{
    let s = seq![letter] + fixed_text(v) + rest;
    let e = fixed_text(v).len() as int + 1;
    assert(s.subrange(1, s.len() as int) =~= fixed_text(v) + rest);
    assert(s.subrange(e, s.len() as int) =~= rest);
    lemma_number_at_fixed_text(v, rest);
    lemma_number_at_shift(s, 1, 0);
    lemma_words_shift(s, e, 0);
    assert(s[0] == letter);
    assert(blank_run(s, 0) == 0);
}

/// A letter followed by a whole number reads as one word, and what follows
/// it reads as it would on its own, where that is nothing or starts with a
/// letter.
pub proof fn lemma_code_word(letter: u8, n: nat, rest: Seq<u8>)
    requires
        is_letter(letter),
        n <= u32::MAX,
        rest.len() == 0 || is_letter(rest[0]),
    ensures
        line_words(seq![letter] + decimal_digits(n) + rest) == word_then(
            code_word(letter, n),
            line_words(rest),
        ),
{
    let s = seq![letter] + decimal_digits(n) + rest;
    let e = decimal_digits(n).len() as int + 1;
    assert(s.subrange(1, s.len() as int) =~= decimal_digits(n) + rest);
    assert(s.subrange(e, s.len() as int) =~= rest);
    lemma_number_at_whole(n, rest);
    lemma_number_at_shift(s, 1, 0);
    lemma_words_shift(s, e, 0);
    assert(s[0] == letter);
    assert(blank_run(s, 0) == 0);
}

} // verus!
