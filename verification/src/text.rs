//! Bytes of ASCII text: the delimiters of the two grammars, and searching
//! for them.

use vstd::prelude::*;

verus! {

/// Line feed.
pub const LF: u8 = 0x0a;

/// Carriage return.
pub const CR: u8 = 0x0d;

/// `$`
pub const DOLLAR: u8 = 0x24;

/// `,`
pub const COMMA: u8 = 0x2c;

/// `<`
pub const LESS: u8 = 0x3c;

/// `=`
pub const EQUALS: u8 = 0x3d;

/// `>`
pub const GREATER: u8 = 0x3e;

/// `[`
pub const BRACKET_OPEN: u8 = 0x5b;

/// `]`
pub const BRACKET_CLOSE: u8 = 0x5d;

/// `|`
pub const BAR: u8 = 0x7c;

/// Whether the bytes of `lit` stand in `s` from position `i` on.
pub open spec fn starts_with(s: Seq<u8>, i: int, lit: Seq<u8>) -> bool {
    0 <= i && i + lit.len() <= s.len() && s.subrange(i, i + lit.len()) == lit
}

/// How many bytes other than `stop` stand in a row from position `i` on.
pub open spec fn span_until(s: Seq<u8>, i: int, stop: u8) -> nat
    decreases s.len() - i,
{
    if 0 <= i < s.len() && s[i] != stop {
        1 + span_until(s, i + 1, stop)
    } else {
        0
    }
}

/// Whether `b` is a carriage return or a line feed.
pub open spec fn is_break(b: u8) -> bool {
    b == CR || b == LF
}

/// How many carriage returns and line feeds stand in a row from position `i`
/// on.
pub open spec fn break_run(s: Seq<u8>, i: int) -> nat
    decreases s.len() - i,
{
    if 0 <= i < s.len() && is_break(s[i]) {
        1 + break_run(s, i + 1)
    } else {
        0
    }
}

/// Appends `bytes` to `out`.
pub fn append(out: &mut Vec<u8>, bytes: &[u8])
    ensures
        final(out)@ == old(out)@ + bytes@,
{
    out.extend_from_slice(bytes);
    assert(out@ =~= old(out)@ + bytes@);
}

/// Executable test for `starts_with`.
pub fn has_prefix(s: &[u8], i: usize, lit: &[u8]) -> (r: bool)
    requires
        i <= s.len(),
    ensures
        r == starts_with(s@, i as int, lit@),
{
    if lit.len() > s.len() - i {
        return false;
    }
    let mut k: usize = 0;
    while k < lit.len()
        invariant
            k <= lit.len(),
            i + lit.len() <= s.len(),
            s@.subrange(i as int, i + k) == lit@.subrange(0, k as int),
        decreases lit.len() - k,
    {
        if s[i + k] != lit[k] {
            assert(s@.subrange(i as int, i + lit@.len())[k as int] != lit@[k as int]);
            return false;
        }
        assert(s@.subrange(i as int, i + k + 1) =~= s@.subrange(i as int, i + k).push(s@[i + k]));
        assert(lit@.subrange(0, k + 1) =~= lit@.subrange(0, k as int).push(lit@[k as int]));
        k = k + 1;
    }
    assert(lit@.subrange(0, lit@.len() as int) =~= lit@);
    true
}

/// Whether `s` is exactly the bytes of `lit`.
pub fn is_text(s: &[u8], lit: &[u8]) -> (r: bool)
    ensures
        r == (s@ == lit@),
{
    if s.len() != lit.len() {
        return false;
    }
    let r = has_prefix(s, 0, lit);
    assert(s@.subrange(0, s@.len() as int) =~= s@);
    r
}

/// The position of the first `stop` at or after `i`, or the length of `s`
/// where there is none.
pub fn find_byte(s: &[u8], i: usize, stop: u8) -> (e: usize)
    requires
        i <= s.len(),
    ensures
        e == i + span_until(s@, i as int, stop),
        i <= e <= s.len(),
        e < s.len() ==> s@[e as int] == stop,
        forall|k: int| i <= k < e ==> s@[k] != stop,
{
    let mut e: usize = i;
    while e < s.len() && s[e] != stop
        invariant
            i <= e <= s.len(),
            i + span_until(s@, i as int, stop) == e + span_until(s@, e as int, stop),
            forall|k: int| i <= k < e ==> s@[k] != stop,
        decreases s.len() - e,
    {
        e = e + 1;
    }
    e
}

/// The position of the first byte at or after `i` that is neither a
/// carriage return nor a line feed.
pub fn skip_breaks(s: &[u8], i: usize) -> (e: usize)
    requires
        i <= s.len(),
    ensures
        e == i + break_run(s@, i as int),
        i <= e <= s.len(),
{
    let mut e: usize = i;
    while e < s.len() && (s[e] == CR || s[e] == LF)
        invariant
            i <= e <= s.len(),
            i + break_run(s@, i as int) == e + break_run(s@, e as int),
        decreases s.len() - e,
    {
        e = e + 1;
    }
    e
}

/// Where no `stop` stands from `i` up to `k` and one stands at `k`, or the
/// text ends there, the run of other bytes from `i` ends at `k`.
pub proof fn lemma_span_until_run(s: Seq<u8>, i: int, k: int, stop: u8)
    requires
        0 <= i <= k <= s.len(),
        forall|j: int| i <= j < k ==> #[trigger] s[j] != stop,
        k == s.len() || s[k] == stop,
    ensures
        i + span_until(s, i, stop) == k,
    decreases k - i,
{
    if i < k {
        lemma_span_until_run(s, i + 1, k, stop);
    }
}

} // verus!
