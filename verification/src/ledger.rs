//! The durable ledger's line format: one memory record per line as a JSON
//! object, append-only, UTF-8. Encoding and parsing are verified to round
//! trip, so a record written to the ledger reloads field-for-field.

use vstd::prelude::*;
use vstd::slice::slice_subrange;
use vstd::utf8::{decode_utf8, valid_utf8};

use crate::memory::{memory_wf, MemModel, Memory, EMB_MAX_ABS, EMB_MAX_LEN};

verus! {

// ---------------------------------------------------------------------------
// Decimal numbers
// ---------------------------------------------------------------------------

/// Is `b` an ASCII decimal digit?
pub open spec fn is_digit(b: u8) -> bool {
    48 <= b <= 57
}

/// The decimal digits of `n`, most significant first.
pub open spec fn dec_digits(n: nat) -> Seq<u8>
    decreases n,
{
    if n < 10 {
        seq![(48 + n) as u8]
    } else {
        dec_digits(n / 10) + seq![(48 + n % 10) as u8]
    }
}

/// The signed decimal spelling of `n`.
pub open spec fn dec_int(n: int) -> Seq<u8> {
    if n < 0 {
        seq![45u8] + dec_digits((-n) as nat)
    } else {
        dec_digits(n as nat)
    }
}

/// The value of a digit string, most significant first.
pub open spec fn digits_value(d: Seq<u8>) -> nat
    decreases d.len(),
{
    if d.len() == 0 {
        0
    } else {
        digits_value(d.drop_last()) * 10 + ((d.last() - 48) as nat)
    }
}

/// Ten to the `k`.
pub open spec fn pow10(k: nat) -> nat
    decreases k,
{
    if k == 0 {
        1nat
    } else {
        10 * pow10((k - 1) as nat)
    }
}

/// Reading digits left to right from position `i` with accumulator `acc`:
/// the value read and the position after the last digit.
pub open spec fn scan_digits(s: Seq<u8>, i: int, acc: nat) -> (nat, int)
    decreases s.len() - i,
    when 0 <= i <= s.len()
{
    if i < s.len() && is_digit(s[i]) {
        scan_digits(s, i + 1, acc * 10 + ((s[i] - 48) as nat))
    } else {
        (acc, i)
    }
}

proof fn lemma_dec_digits_all_digits(n: nat)
    ensures
        dec_digits(n).len() >= 1,
        forall|i: int| 0 <= i < dec_digits(n).len() ==> is_digit(#[trigger] dec_digits(n)[i]),
    decreases n,
{
    if n >= 10 {
        lemma_dec_digits_all_digits(n / 10);
    }
}

proof fn lemma_digits_value_concat(a: Seq<u8>, b: Seq<u8>)
    ensures
        digits_value(a + b) == digits_value(a) * pow10(b.len()) + digits_value(b),
    decreases b.len(),
{
    if b.len() == 0 {
        assert(a + b =~= a);
        assert(digits_value(a) * 1 == digits_value(a)) by (nonlinear_arith);
    } else {
        lemma_digits_value_concat(a, b.drop_last());
        assert((a + b).drop_last() =~= a + b.drop_last());
        assert((a + b).last() == b.last());
        let va = digits_value(a);
        let vb1 = digits_value(b.drop_last());
        let p = pow10((b.len() - 1) as nat);
        let d = (b.last() - 48) as nat;
        assert(digits_value(a + b) == (va * p + vb1) * 10 + d);
        assert((va * p + vb1) * 10 + d == va * (p * 10) + (vb1 * 10 + d)) by (nonlinear_arith);
        assert(pow10(b.len()) == 10 * p) by {
            reveal_with_fuel(pow10, 2);
        }
        assert(va * (p * 10) == va * pow10(b.len())) by (nonlinear_arith)
            requires
                pow10(b.len()) == 10 * p,
        ;
    }
}

proof fn lemma_dec_digits_value(n: nat)
    ensures
        digits_value(dec_digits(n)) == n,
    decreases n,
{
    if n < 10 {
        assert(dec_digits(n) =~= seq![(48 + n) as u8]);
        assert(digits_value(seq![(48 + n) as u8]) == digits_value(
            seq![(48 + n) as u8].drop_last(),
        ) * 10 + n);
        assert(seq![(48 + n) as u8].drop_last() =~= Seq::<u8>::empty());
    } else {
        lemma_dec_digits_value(n / 10);
        let d = dec_digits(n);
        assert(d.drop_last() =~= dec_digits(n / 10));
        assert(d.last() == (48 + n % 10) as u8);
        assert(digits_value(d) == (n / 10) * 10 + n % 10);
        assert((n / 10) * 10 + n % 10 == n) by (nonlinear_arith);
    }
}

/// Scanning from `i` over a block of digits reaches `j` with the block's
/// value folded into the accumulator.
proof fn lemma_scan_digit_block(s: Seq<u8>, i: int, j: int, acc: nat)
    requires
        0 <= i <= j <= s.len(),
        forall|k: int| i <= k < j ==> is_digit(s[k]),
        j == s.len() || !is_digit(s[j]),
    ensures
        scan_digits(s, i, acc) == ((acc * pow10((j - i) as nat) + digits_value(
            s.subrange(i, j),
        )), j),
    decreases j - i,
{
    if i == j {
        assert(s.subrange(i, j) =~= Seq::<u8>::empty());
        assert(acc * 1 == acc) by (nonlinear_arith);
    } else {
        let d = (s[i] - 48) as nat;
        lemma_scan_digit_block(s, i + 1, j, acc * 10 + d);
        let w = (j - i - 1) as nat;
        assert(s.subrange(i, j) =~= seq![s[i]] + s.subrange(i + 1, j));
        lemma_digits_value_concat(seq![s[i]], s.subrange(i + 1, j));
        assert(digits_value(seq![s[i]].drop_last()) == 0) by {
            assert(seq![s[i]].drop_last() =~= Seq::<u8>::empty());
        }
        assert(digits_value(seq![s[i]]) == d);
        let vrest = digits_value(s.subrange(i + 1, j));
        assert(digits_value(s.subrange(i, j)) == d * pow10(w) + vrest);
        assert((acc * 10 + d) * pow10(w) == acc * (10 * pow10(w)) + d * pow10(w))
            by (nonlinear_arith);
        assert(pow10((j - i) as nat) == 10 * pow10(w)) by {
            reveal_with_fuel(pow10, 2);
        }
        assert(acc * (10 * pow10(w)) == acc * pow10((j - i) as nat)) by (nonlinear_arith)
            requires
                pow10((j - i) as nat) == 10 * pow10(w),
        ;
    }
}

/// The value scanned never falls below the accumulator it started from.
pub(crate) proof fn lemma_scan_digits_monotone(s: Seq<u8>, i: int, acc: nat)
    requires
        0 <= i <= s.len(),
    ensures
        scan_digits(s, i, acc).0 >= acc,
        i <= scan_digits(s, i, acc).1 <= s.len(),
    decreases s.len() - i,
{
    if i < s.len() && is_digit(s[i]) {
        let d = (s[i] - 48) as nat;
        assert(acc * 10 + d >= acc) by (nonlinear_arith);
        lemma_scan_digits_monotone(s, i + 1, acc * 10 + d);
    }
}

/// Append the decimal digits of `n` to `out`.
fn push_dec(out: &mut Vec<u8>, n: u64)
    ensures
        final(out)@ == old(out)@ + dec_digits(n as nat),
    decreases n,
{
    if n < 10 {
        out.push(48 + n as u8);
        proof {
            assert(out@ =~= old(out)@ + dec_digits(n as nat));
        }
    } else {
        push_dec(out, n / 10);
        out.push(48 + (n % 10) as u8);
        proof {
            assert(out@ =~= old(out)@ + dec_digits(n as nat));
        }
    }
}

/// Append the signed decimal spelling of `n` to `out`.
fn push_dec_int(out: &mut Vec<u8>, n: i64)
    requires
        n > i64::MIN,
    ensures
        final(out)@ == old(out)@ + dec_int(n as int),
{
    if n < 0 {
        out.push(45);
        let m = (-n) as u64;
        push_dec(out, m);
        proof {
            assert(out@ =~= old(out)@ + dec_int(n as int));
        }
    } else {
        push_dec(out, n as u64);
    }
}

/// Read a run of digits from `s` at `i`, bounded by `max`. Mirrors
/// `scan_digits`; fails where no digit stands at `i` or the value passes
/// `max`.
pub(crate) fn parse_number(s: &[u8], i: usize, max: u64) -> (r: Option<(u64, usize)>)
    requires
        i <= s@.len(),
        max <= 0xFFFF_FFFF_FFFF_FFF,
    ensures
        match r {
            Some((v, j)) => {
                &&& scan_digits(s@, i as int, 0) == ((v as nat), (j as int))
                &&& v <= max
                &&& i < j <= s@.len()
            },
            None => {
                let (v, j) = scan_digits(s@, i as int, 0);
                j == i || v > max
            },
        },
{
    let n = s.len();
    if i == n || !(48 <= s[i] && s[i] <= 57) {
        return None;
    }
    let mut acc: u64 = 0;
    let mut j: usize = i;
    loop
        invariant
            i <= j <= n,
            i < n,
            is_digit(s@[i as int]),
            n == s@.len(),
            acc <= max,
            max <= 0xFFFF_FFFF_FFFF_FFF,
            scan_digits(s@, i as int, 0) == scan_digits(s@, j as int, acc as nat),
        decreases n - j,
    {
        if j == n || !(48 <= s[j] && s[j] <= 57) {
            return Some((acc, j));
        }
        let d = (s[j] - 48) as u64;
        let next = acc * 10 + d;
        if next > max {
            proof {
                lemma_scan_digits_monotone(s@, j + 1, (acc * 10 + d) as nat);
            }
            return None;
        }
        acc = next;
        j += 1;
    }
}

// ---------------------------------------------------------------------------
// String fields: escaping and scanning
// ---------------------------------------------------------------------------

/// How one byte is written inside a quoted field: quote, backslash, newline
/// and carriage return are escaped (the latter two so a record stays on one
/// line); everything else passes through.
pub open spec fn esc1(b: u8) -> Seq<u8> {
    if b == 34 {
        seq![92u8, 34u8]
    } else if b == 92 {
        seq![92u8, 92u8]
    } else if b == 10 {
        seq![92u8, 110u8]
    } else if b == 13 {
        seq![92u8, 114u8]
    } else {
        seq![b]
    }
}

/// A byte string written as quoted-field content.
pub open spec fn escape_bytes(t: Seq<u8>) -> Seq<u8>
    decreases t.len(),
{
    if t.len() == 0 {
        Seq::empty()
    } else {
        esc1(t[0]) + escape_bytes(t.drop_first())
    }
}

/// The byte an escape code stands for.
pub open spec fn unesc(b: u8) -> Option<u8> {
    if b == 34 {
        Some(34u8)
    } else if b == 92 {
        Some(92u8)
    } else if b == 110 {
        Some(10u8)
    } else if b == 114 {
        Some(13u8)
    } else {
        None
    }
}

/// Read quoted-field content from `i` up to the closing quote: the bytes it
/// stands for and the position after the quote. Nothing on an unterminated
/// field or an unknown escape.
pub open spec fn scan_string(s: Seq<u8>, i: int) -> Option<(Seq<u8>, int)>
    decreases s.len() - i,
    when 0 <= i <= s.len()
{
    if i == s.len() {
        None
    } else if s[i] == 34 {
        Some((Seq::empty(), i + 1))
    } else if s[i] == 92 {
        if i + 1 < s.len() {
            match unesc(s[i + 1]) {
                Some(c) => match scan_string(s, i + 2) {
                    Some((t, j)) => Some((seq![c] + t, j)),
                    None => None,
                },
                None => None,
            }
        } else {
            None
        }
    } else {
        match scan_string(s, i + 1) {
            Some((t, j)) => Some((seq![s[i]] + t, j)),
            None => None,
        }
    }
}

/// Escaping one more byte appends its escape.
proof fn lemma_escape_snoc(t: Seq<u8>, b: u8)
    ensures
        escape_bytes(t.push(b)) == escape_bytes(t) + esc1(b),
    decreases t.len(),
{
    if t.len() == 0 {
        assert(t.push(b)[t.len() as int] == b);
        assert(t.push(b).drop_first() =~= Seq::<u8>::empty());
        assert(escape_bytes(t.push(b)) == esc1(b) + escape_bytes(Seq::<u8>::empty()));
        assert(esc1(b) + Seq::<u8>::empty() =~= esc1(b));
        assert(escape_bytes(t) + esc1(b) =~= esc1(b));
    } else {
        lemma_escape_snoc(t.drop_first(), b);
        assert(t.push(b).drop_first() =~= t.drop_first().push(b));
        assert(escape_bytes(t.push(b)) == esc1(t[0]) + (escape_bytes(t.drop_first()) + esc1(b)));
        assert(esc1(t[0]) + (escape_bytes(t.drop_first()) + esc1(b)) =~= (esc1(t[0])
            + escape_bytes(t.drop_first())) + esc1(b));
    }
}

/// Scanning an escaped field finds exactly the bytes it was made from.
proof fn lemma_scan_escape(t: Seq<u8>, s: Seq<u8>, i: int)
    requires
        0 <= i,
        i + escape_bytes(t).len() < s.len(),
        s.subrange(i, i + escape_bytes(t).len()) == escape_bytes(t),
        s[i + escape_bytes(t).len()] == 34,
    ensures
        scan_string(s, i) == Some((t, i + escape_bytes(t).len() + 1)),
    decreases t.len(),
{
    let e = escape_bytes(t);
    if t.len() == 0 {
        assert(s[i] == 34);
    } else {
        let b = t[0];
        let e1 = esc1(b);
        let rest = escape_bytes(t.drop_first());
        assert(e == e1 + rest);
        assert forall|k: int| 0 <= k < e1.len() implies s[i + k] == e1[k] by {
            assert(s.subrange(i, i + e.len())[k] == s[i + k]);
            assert(e[k] == e1[k]);
        }
        assert(s.subrange(i + e1.len(), i + e.len()) =~= rest) by {
            assert forall|k: int| 0 <= k < rest.len() implies s.subrange(
                i + e1.len(),
                i + e.len(),
            )[k] == rest[k] by {
                assert(s.subrange(i, i + e.len())[e1.len() + k] == s[i + e1.len() + k]);
                assert(e[e1.len() + k] == rest[k]);
            }
        }
        lemma_scan_escape(t.drop_first(), s, i + e1.len() as int);
        if b == 34 || b == 92 || b == 10 || b == 13 {
            assert(e1.len() == 2);
            assert(s[i + 0] == e1[0] && s[i + 1] == e1[1]);
            assert(s[i] == 92);
            assert(unesc(s[i + 1]) == Some(b));
            assert(seq![b] + t.drop_first() =~= t);
        } else {
            assert(s[i + 0] == e1[0]);
            assert(s[i] == b);
            assert(s[i] != 34 && s[i] != 92);
            assert(seq![b] + t.drop_first() =~= t);
        }
    }
}

/// Append `s` to `out` in escaped form.
fn push_escaped(out: &mut Vec<u8>, s: &[u8])
    ensures
        final(out)@ == old(out)@ + escape_bytes(s@),
{
    let n = s.len();
    let mut i: usize = 0;
    proof {
        assert(s@.subrange(0, 0) =~= Seq::<u8>::empty());
        assert(out@ =~= old(out)@ + escape_bytes(s@.subrange(0, 0)));
    }
    while i < n
        invariant
            n == s@.len(),
            i <= n,
            out@ == old(out)@ + escape_bytes(s@.subrange(0, i as int)),
        decreases n - i,
    {
        let b = s[i];
        if b == 34 {
            out.push(92);
            out.push(34);
        } else if b == 92 {
            out.push(92);
            out.push(92);
        } else if b == 10 {
            out.push(92);
            out.push(110);
        } else if b == 13 {
            out.push(92);
            out.push(114);
        } else {
            out.push(b);
        }
        proof {
            lemma_escape_snoc(s@.subrange(0, i as int), b);
            assert(s@.subrange(0, i + 1) =~= s@.subrange(0, i as int).push(b));
            assert(out@ =~= old(out)@ + escape_bytes(s@.subrange(0, i + 1)));
        }
        i += 1;
    }
    proof {
        assert(s@.subrange(0, n as int) =~= s@);
    }
}

/// Read quoted-field content starting at `i`, mirroring `scan_string`.
pub(crate) fn scan_string_exec(s: &[u8], i: usize) -> (r: Option<(Vec<u8>, usize)>)
    requires
        i <= s@.len(),
    ensures
        match r {
            Some((v, j)) => scan_string(s@, i as int) == Some((v@, j as int)) && i < j <= s@.len(),
            None => scan_string(s@, i as int) is None,
        },
{
    let n = s.len();
    let mut out: Vec<u8> = Vec::new();
    let mut j: usize = i;
    proof {
        if let Some((t, k)) = scan_string(s@, i as int) {
            assert(Seq::<u8>::empty() + t =~= t);
        }
    }
    loop
        invariant
            i <= j <= n,
            n == s@.len(),
            match scan_string(s@, j as int) {
                Some((t, k)) => scan_string(s@, i as int) == Some((out@ + t, k)),
                None => scan_string(s@, i as int) is None,
            },
        decreases n - j,
    {
        if j == n {
            return None;
        }
        let b = s[j];
        if b == 34 {
            proof {
                assert(out@ + Seq::<u8>::empty() =~= out@);
            }
            return Some((out, j + 1));
        }
        if b == 92 {
            if j + 1 == n {
                return None;
            }
            let c = s[j + 1];
            let mapped: u8 = if c == 34 {
                34
            } else if c == 92 {
                92
            } else if c == 110 {
                10
            } else if c == 114 {
                13
            } else {
                return None;
            };
            proof {
                assert(unesc(c) == Some(mapped));
                if let Some((t, k)) = scan_string(s@, j + 2) {
                    assert(scan_string(s@, j as int) == Some((seq![mapped] + t, k)));
                    assert(out@ + (seq![mapped] + t) =~= out@.push(mapped) + t);
                }
            }
            out.push(mapped);
            j += 2;
        } else {
            proof {
                if let Some((t, k)) = scan_string(s@, j + 1) {
                    assert(scan_string(s@, j as int) == Some((seq![b] + t, k)));
                    assert(out@ + (seq![b] + t) =~= out@.push(b) + t);
                }
            }
            out.push(b);
            j += 1;
        }
    }
}

// ---------------------------------------------------------------------------
// The record line: layout
// ---------------------------------------------------------------------------

/// The bytes of `{"id":"m_`.
pub open spec fn lit_id() -> Seq<u8> {
    seq![123u8, 34, 105, 100, 34, 58, 34, 109, 95]
}

/// The bytes of `","timestamp":"`.
pub open spec fn lit_timestamp() -> Seq<u8> {
    seq![34u8, 44, 34, 116, 105, 109, 101, 115, 116, 97, 109, 112, 34, 58, 34]
}

/// The bytes of `","kind":"`.
pub open spec fn lit_kind() -> Seq<u8> {
    seq![34u8, 44, 34, 107, 105, 110, 100, 34, 58, 34]
}

/// The bytes of `","content":"`.
pub open spec fn lit_content() -> Seq<u8> {
    seq![34u8, 44, 34, 99, 111, 110, 116, 101, 110, 116, 34, 58, 34]
}

/// The bytes of `","importance":`.
pub open spec fn lit_importance() -> Seq<u8> {
    seq![34u8, 44, 34, 105, 109, 112, 111, 114, 116, 97, 110, 99, 101, 34, 58]
}

/// The bytes of `,"depth":`.
pub open spec fn lit_depth() -> Seq<u8> {
    seq![44u8, 34, 100, 101, 112, 116, 104, 34, 58]
}

/// The bytes of `,"references":[`.
pub open spec fn lit_references() -> Seq<u8> {
    seq![44u8, 34, 114, 101, 102, 101, 114, 101, 110, 99, 101, 115, 34, 58, 91]
}

/// The bytes of `],"embedding":[`.
pub open spec fn lit_embedding() -> Seq<u8> {
    seq![93u8, 44, 34, 101, 109, 98, 101, 100, 100, 105, 110, 103, 34, 58, 91]
}

/// The bytes of `]}`.
pub open spec fn lit_close() -> Seq<u8> {
    seq![93u8, 125]
}

/// Digits padded with leading zeros to at least four places, as ids are
/// written.
pub open spec fn pad4(d: Seq<u8>) -> Seq<u8> {
    if d.len() >= 4 {
        d
    } else {
        Seq::new((4 - d.len()) as nat, |k: int| 48u8) + d
    }
}

/// One reference, written `"m_NNNN"`.
pub open spec fn ref_item(r: u32) -> Seq<u8> {
    seq![34u8, 109, 95] + pad4(dec_digits(r as nat)) + seq![34u8]
}

/// The comma-separated reference list.
pub open spec fn refs_bytes(rs: Seq<u32>) -> Seq<u8>
    decreases rs.len(),
{
    if rs.len() == 0 {
        Seq::empty()
    } else if rs.len() == 1 {
        ref_item(rs[0])
    } else {
        ref_item(rs[0]) + (seq![44u8] + refs_bytes(rs.drop_first()))
    }
}

/// The comma-separated embedding list.
pub open spec fn embs_bytes(es: Seq<i64>) -> Seq<u8>
    decreases es.len(),
{
    if es.len() == 0 {
        Seq::empty()
    } else if es.len() == 1 {
        dec_int(es[0] as int)
    } else {
        dec_int(es[0] as int) + (seq![44u8] + embs_bytes(es.drop_first()))
    }
}

/// The line from the id digits on.
pub open spec fn line_from_id(m: MemModel) -> Seq<u8> {
    pad4(dec_digits(m.id as nat)) + (lit_timestamp() + line_from_ts(m))
}

/// The line from the timestamp text on.
pub open spec fn line_from_ts(m: MemModel) -> Seq<u8> {
    escape_bytes(vstd::utf8::encode_utf8(m.timestamp)) + (lit_kind() + line_from_kind(m))
}

/// The line from the kind text on.
pub open spec fn line_from_kind(m: MemModel) -> Seq<u8> {
    escape_bytes(vstd::utf8::encode_utf8(m.kind)) + (lit_content() + line_from_content(m))
}

/// The line from the content text on.
pub open spec fn line_from_content(m: MemModel) -> Seq<u8> {
    escape_bytes(vstd::utf8::encode_utf8(m.content)) + (lit_importance() + line_from_importance(m))
}

/// The line from the importance number on.
pub open spec fn line_from_importance(m: MemModel) -> Seq<u8> {
    dec_int(m.importance as int) + (lit_depth() + line_from_depth(m))
}

/// The line from the depth number on.
pub open spec fn line_from_depth(m: MemModel) -> Seq<u8> {
    dec_int(m.depth as int) + (lit_references() + line_from_refs(m))
}

/// The line from the reference list on.
pub open spec fn line_from_refs(m: MemModel) -> Seq<u8> {
    refs_bytes(m.references) + (lit_embedding() + (embs_bytes(m.embedding) + lit_close()))
}

/// The whole ledger line a record is written as: a JSON object with the
/// fields in fixed order, quote, backslash and line breaks escaped.
pub open spec fn memory_line(m: MemModel) -> Seq<u8> {
    lit_id() + line_from_id(m)
}

// ---------------------------------------------------------------------------
// Encoding
// ---------------------------------------------------------------------------

/// Append a literal chunk.
fn push_lit(out: &mut Vec<u8>, lit: &[u8])
    ensures
        final(out)@ == old(out)@ + lit@,
{
    let n = lit.len();
    let mut i: usize = 0;
    proof {
        assert(out@ =~= old(out)@ + lit@.subrange(0, 0));
    }
    while i < n
        invariant
            n == lit@.len(),
            i <= n,
            out@ == old(out)@ + lit@.subrange(0, i as int),
        decreases n - i,
    {
        out.push(lit[i]);
        proof {
            assert(out@ =~= old(out)@ + lit@.subrange(0, i + 1));
        }
        i += 1;
    }
    proof {
        assert(lit@.subrange(0, n as int) =~= lit@);
    }
}

/// How many decimal digits a number prints as.
proof fn lemma_dec_digits_len(n: nat)
    ensures
        n < 10 ==> dec_digits(n).len() == 1,
        10 <= n < 100 ==> dec_digits(n).len() == 2,
        100 <= n < 1000 ==> dec_digits(n).len() == 3,
        1000 <= n ==> dec_digits(n).len() >= 4,
    decreases n,
{
    if n >= 10 {
        lemma_dec_digits_len(n / 10);
    }
}

/// Append the zero-padded id digits.
fn push_pad4(out: &mut Vec<u8>, n: u32)
    ensures
        final(out)@ == old(out)@ + pad4(dec_digits(n as nat)),
{
    proof {
        lemma_dec_digits_len(n as nat);
    }
    if n >= 1000 {
        push_dec(out, n as u64);
        proof {
            assert(out@ =~= old(out)@ + pad4(dec_digits(n as nat)));
        }
    } else {
        let mut zeros: usize = 3;
        if n >= 100 {
            zeros = 1;
        } else if n >= 10 {
            zeros = 2;
        }
        let ghost mid = out@;
        let mut z: usize = 0;
        while z < zeros
            invariant
                z <= zeros,
                out@ == mid + Seq::new(z as nat, |k: int| 48u8),
            decreases zeros - z,
        {
            out.push(48);
            proof {
                assert(out@ =~= mid + Seq::new((z + 1) as nat, |k: int| 48u8));
            }
            z += 1;
        }
        push_dec(out, n as u64);
        proof {
            assert(out@ =~= old(out)@ + pad4(dec_digits(n as nat)));
        }
    }
}

/// Concatenation associates.
proof fn seq_assoc(x: Seq<u8>, a: Seq<u8>, b: Seq<u8>)
    ensures
        (x + a) + b == x + (a + b),
{
    assert((x + a) + b =~= x + (a + b));
}

/// Encode one record as its ledger line (without the trailing newline).
pub fn encode_memory(m: &Memory) -> (r: Vec<u8>)
    requires
        memory_wf(m@),
    ensures
        r@ == memory_line(m@),
{
    let mut out: Vec<u8> = Vec::new();
    push_lit(&mut out, &[123u8, 34, 105, 100, 34, 58, 34, 109, 95]);
    proof {
        assert(out@ =~= lit_id());
    }
    let ghost o1 = out@;
    push_pad4(&mut out, m.id);
    let ghost o2 = out@;
    push_lit(&mut out, &[34u8, 44, 34, 116, 105, 109, 101, 115, 116, 97, 109, 112, 34, 58, 34]);
    let ghost o3 = out@;
    push_escaped(&mut out, m.timestamp.as_str().as_bytes());
    let ghost o4 = out@;
    push_lit(&mut out, &[34u8, 44, 34, 107, 105, 110, 100, 34, 58, 34]);
    let ghost o5 = out@;
    push_escaped(&mut out, m.kind.as_str().as_bytes());
    let ghost o6 = out@;
    push_lit(&mut out, &[34u8, 44, 34, 99, 111, 110, 116, 101, 110, 116, 34, 58, 34]);
    let ghost o7 = out@;
    push_escaped(&mut out, m.content.as_str().as_bytes());
    let ghost o8 = out@;
    push_lit(
        &mut out,
        &[34u8, 44, 34, 105, 109, 112, 111, 114, 116, 97, 110, 99, 101, 34, 58],
    );
    let ghost o9 = out@;
    push_dec_int(&mut out, m.importance as i64);
    let ghost o10 = out@;
    push_lit(&mut out, &[44u8, 34, 100, 101, 112, 116, 104, 34, 58]);
    let ghost o11 = out@;
    push_dec_int(&mut out, m.depth as i64);
    let ghost o12 = out@;
    push_lit(
        &mut out,
        &[44u8, 34, 114, 101, 102, 101, 114, 101, 110, 99, 101, 115, 34, 58, 91],
    );
    let ghost o13 = out@;
    let nrefs = m.references.len();
    let mut i: usize = 0;
    let ghost pre_refs = out@;
    while i < nrefs
        invariant
            nrefs == m.references@.len(),
            i <= nrefs,
            out@ == pre_refs + refs_prefix(m.references@, i as int),
        decreases nrefs - i,
    {
        if i > 0 {
            out.push(44);
        }
        push_lit(&mut out, &[34u8, 109, 95]);
        push_pad4(&mut out, m.references[i]);
        out.push(34);
        proof {
            lemma_refs_prefix_snoc(m.references@, i as int);
            assert(out@ =~= pre_refs + refs_prefix(m.references@, i + 1));
        }
        i += 1;
    }
    proof {
        lemma_refs_prefix_full(m.references@);
    }
    let ghost o14 = out@;
    push_lit(
        &mut out,
        &[93u8, 44, 34, 101, 109, 98, 101, 100, 100, 105, 110, 103, 34, 58, 91],
    );
    let ghost o15 = out@;
    let nemb = m.embedding.len();
    let mut j: usize = 0;
    let ghost pre_emb = out@;
    while j < nemb
        invariant
            nemb == m.embedding@.len(),
            j <= nemb,
            memory_wf(m@),
            out@ == pre_emb + embs_prefix(m.embedding@, j as int),
        decreases nemb - j,
    {
        if j > 0 {
            out.push(44);
        }
        let v = m.embedding[j];
        push_dec_int(&mut out, v);
        proof {
            lemma_embs_prefix_snoc(m.embedding@, j as int);
            assert(out@ =~= pre_emb + embs_prefix(m.embedding@, j + 1));
        }
        j += 1;
    }
    proof {
        lemma_embs_prefix_full(m.embedding@);
    }
    let ghost o16 = out@;
    push_lit(&mut out, &[93u8, 125]);
    proof {
        let v = m@;
        let c2 = pad4(dec_digits(v.id as nat));
        let c4 = escape_bytes(vstd::utf8::encode_utf8(v.timestamp));
        let c6 = escape_bytes(vstd::utf8::encode_utf8(v.kind));
        let c8 = escape_bytes(vstd::utf8::encode_utf8(v.content));
        let c10 = dec_int(v.importance as int);
        let c12 = dec_int(v.depth as int);
        let c14 = refs_bytes(v.references);
        let c16 = embs_bytes(v.embedding);
        assert(out@ == o16 + lit_close());
        let t16 = c16 + lit_close();
        seq_assoc(o15, c16, lit_close());
        assert(out@ == o15 + t16);
        let t15 = lit_embedding() + t16;
        seq_assoc(o14, lit_embedding(), t16);
        assert(out@ == o14 + t15);
        let t14 = c14 + t15;
        seq_assoc(o13, c14, t15);
        assert(out@ == o13 + t14);
        let t13 = lit_references() + t14;
        seq_assoc(o12, lit_references(), t14);
        assert(out@ == o12 + t13);
        let t12 = c12 + t13;
        seq_assoc(o11, c12, t13);
        assert(out@ == o11 + t12);
        let t11 = lit_depth() + t12;
        seq_assoc(o10, lit_depth(), t12);
        assert(out@ == o10 + t11);
        let t10 = c10 + t11;
        seq_assoc(o9, c10, t11);
        assert(out@ == o9 + t10);
        let t9 = lit_importance() + t10;
        seq_assoc(o8, lit_importance(), t10);
        assert(out@ == o8 + t9);
        let t8 = c8 + t9;
        seq_assoc(o7, c8, t9);
        assert(out@ == o7 + t8);
        let t7 = lit_content() + t8;
        seq_assoc(o6, lit_content(), t8);
        assert(out@ == o6 + t7);
        let t6 = c6 + t7;
        seq_assoc(o5, c6, t7);
        assert(out@ == o5 + t6);
        let t5 = lit_kind() + t6;
        seq_assoc(o4, lit_kind(), t6);
        assert(out@ == o4 + t5);
        let t4 = c4 + t5;
        seq_assoc(o3, c4, t5);
        assert(out@ == o3 + t4);
        let t3 = lit_timestamp() + t4;
        seq_assoc(o2, lit_timestamp(), t4);
        assert(out@ == o2 + t3);
        let t2 = c2 + t3;
        seq_assoc(o1, c2, t3);
        assert(out@ == o1 + t2);
        assert(t3 =~= lit_timestamp() + line_from_ts(v));
        assert(t2 == line_from_id(v));
        assert(out@ == lit_id() + line_from_id(v));
    }
    out
}

// ---------------------------------------------------------------------------
// Parsing
// ---------------------------------------------------------------------------

/// Match a literal chunk at `i`: the position after it, or nothing.
pub open spec fn eat_spec(s: Seq<u8>, i: int, lit: Seq<u8>) -> Option<int> {
    if 0 <= i && i + lit.len() <= s.len() && s.subrange(i, i + lit.len()) == lit {
        Some(i + lit.len())
    } else {
        None
    }
}

/// Read a signed decimal number at `i`: its value and the position after it.
pub open spec fn scan_int(s: Seq<u8>, i: int) -> Option<(int, int)>
    recommends
        0 <= i <= s.len(),
{
    if i < s.len() && s[i] == 45 {
        let (v, j) = scan_digits(s, i + 1, 0);
        if j == i + 1 {
            None
        } else {
            Some((-(v as int), j))
        }
    } else {
        let (v, j) = scan_digits(s, i, 0);
        if j == i {
            None
        } else {
            Some((v as int, j))
        }
    }
}

/// Read one `"m_NNNN"` reference at `i`.
pub open spec fn scan_ref_item(s: Seq<u8>, i: int) -> Option<(nat, int)>
    recommends
        0 <= i <= s.len(),
{
    match eat_spec(s, i, seq![34u8, 109, 95]) {
        None => None,
        Some(j) => {
            let (v, k) = scan_digits(s, j, 0);
            if k == j {
                None
            } else if k < s.len() && s[k] == 34 {
                Some((v, k + 1))
            } else {
                None
            }
        },
    }
}

/// Read the reference list at `i`, stopping before the closing bracket.
pub open spec fn scan_refs(s: Seq<u8>, i: int) -> Option<(Seq<u32>, int)>
    decreases s.len() - i,
    when 0 <= i <= s.len()
{
    if i == s.len() {
        None
    } else if s[i] == 93 {
        Some((Seq::empty(), i))
    } else {
        match scan_ref_item(s, i) {
            None => None,
            Some((v, j)) => if v > u32::MAX {
                None
            } else if i < j && j < s.len() && s[j] == 44 {
                match scan_refs(s, j + 1) {
                    Some((vs, k)) => Some((seq![v as u32] + vs, k)),
                    None => None,
                }
            } else if j < s.len() && s[j] == 93 {
                Some((seq![v as u32], j))
            } else {
                None
            },
        }
    }
}

/// Read the embedding list at `i`, stopping before the closing bracket.
pub open spec fn scan_embs(s: Seq<u8>, i: int) -> Option<(Seq<i64>, int)>
    decreases s.len() - i,
    when 0 <= i <= s.len()
{
    if i == s.len() {
        None
    } else if s[i] == 93 {
        Some((Seq::empty(), i))
    } else {
        match scan_int(s, i) {
            None => None,
            Some((v, j)) => if v < -EMB_MAX_ABS || v > EMB_MAX_ABS {
                None
            } else if i < j && j < s.len() && s[j] == 44 {
                match scan_embs(s, j + 1) {
                    Some((vs, k)) => Some((seq![v as i64] + vs, k)),
                    None => None,
                }
            } else if j < s.len() && s[j] == 93 {
                Some((seq![v as i64], j))
            } else {
                None
            },
        }
    }
}

/// What parsing a full ledger line yields: a record model, or nothing for a
/// corrupt line. The line must carry exactly the fields the encoder writes,
/// in order, with nothing after them.
pub open spec fn parse_mem(s: Seq<u8>) -> Option<MemModel> {
    match eat_spec(s, 0, lit_id()) {
        None => None,
        Some(p) => parse_at_id(s, p),
    }
}

/// ... from the id digits on.
pub open spec fn parse_at_id(s: Seq<u8>, p: int) -> Option<MemModel> {
    let (idv, q) = scan_digits(s, p, 0);
    if q == p || idv + 1 > u32::MAX {
        None
    } else {
        match eat_spec(s, q, lit_timestamp()) {
            None => None,
            Some(r) => parse_at_ts(s, r, idv),
        }
    }
}

/// ... from the timestamp text on.
pub open spec fn parse_at_ts(s: Seq<u8>, p: int, idv: nat) -> Option<MemModel> {
    match scan_string(s, p) {
        None => None,
        Some((tsb, q)) => match eat_spec(s, q, lit_kind().drop_first()) {
            None => None,
            Some(r) => parse_at_kind(s, r, idv, tsb),
        },
    }
}

/// ... from the kind text on.
pub open spec fn parse_at_kind(s: Seq<u8>, p: int, idv: nat, tsb: Seq<u8>) -> Option<MemModel> {
    match scan_string(s, p) {
        None => None,
        Some((kb, q)) => match eat_spec(s, q, lit_content().drop_first()) {
            None => None,
            Some(r) => parse_at_content(s, r, idv, tsb, kb),
        },
    }
}

/// ... from the content text on.
pub open spec fn parse_at_content(
    s: Seq<u8>,
    p: int,
    idv: nat,
    tsb: Seq<u8>,
    kb: Seq<u8>,
) -> Option<MemModel> {
    match scan_string(s, p) {
        None => None,
        Some((cb, q)) => match eat_spec(s, q, lit_importance().drop_first()) {
            None => None,
            Some(r) => parse_at_importance(s, r, idv, tsb, kb, cb),
        },
    }
}

/// ... from the importance number on.
pub open spec fn parse_at_importance(
    s: Seq<u8>,
    p: int,
    idv: nat,
    tsb: Seq<u8>,
    kb: Seq<u8>,
    cb: Seq<u8>,
) -> Option<MemModel> {
    match scan_int(s, p) {
        None => None,
        Some((imp, q)) => if imp < 1 || imp > 10 {
            None
        } else {
            match eat_spec(s, q, lit_depth()) {
                None => None,
                Some(r) => parse_at_depth(s, r, idv, tsb, kb, cb, imp),
            }
        },
    }
}

/// ... from the depth number on.
pub open spec fn parse_at_depth(
    s: Seq<u8>,
    p: int,
    idv: nat,
    tsb: Seq<u8>,
    kb: Seq<u8>,
    cb: Seq<u8>,
    imp: int,
) -> Option<MemModel> {
    match scan_int(s, p) {
        None => None,
        Some((dep, q)) => if dep < i32::MIN || dep > i32::MAX {
            None
        } else {
            match eat_spec(s, q, lit_references()) {
                None => None,
                Some(r) => parse_at_refs(s, r, idv, tsb, kb, cb, imp, dep),
            }
        },
    }
}

/// ... from the reference list on.
pub open spec fn parse_at_refs(
    s: Seq<u8>,
    p: int,
    idv: nat,
    tsb: Seq<u8>,
    kb: Seq<u8>,
    cb: Seq<u8>,
    imp: int,
    dep: int,
) -> Option<MemModel> {
    match scan_refs(s, p) {
        None => None,
        Some((refs, q)) => match eat_spec(s, q, lit_embedding()) {
            None => None,
            Some(r) => parse_at_embs(s, r, idv, tsb, kb, cb, imp, dep, refs),
        },
    }
}

/// ... from the embedding list on.
pub open spec fn parse_at_embs(
    s: Seq<u8>,
    p: int,
    idv: nat,
    tsb: Seq<u8>,
    kb: Seq<u8>,
    cb: Seq<u8>,
    imp: int,
    dep: int,
    refs: Seq<u32>,
) -> Option<MemModel> {
    match scan_embs(s, p) {
        None => None,
        Some((embs, q)) => if embs.len() > EMB_MAX_LEN {
            None
        } else {
            match eat_spec(s, q, lit_close()) {
                None => None,
                Some(r) => parse_finish(s, r, idv, tsb, kb, cb, imp, dep, refs, embs),
            }
        },
    }
}

/// The final checks: the line ends here and every text field is UTF-8.
pub open spec fn parse_finish(
    s: Seq<u8>,
    p: int,
    idv: nat,
    tsb: Seq<u8>,
    kb: Seq<u8>,
    cb: Seq<u8>,
    imp: int,
    dep: int,
    refs: Seq<u32>,
    embs: Seq<i64>,
) -> Option<MemModel> {
    if p != s.len() || !valid_utf8(tsb) || !valid_utf8(kb) || !valid_utf8(cb) {
        None
    } else {
        Some(
            MemModel {
                id: idv as u32,
                timestamp: decode_utf8(tsb),
                kind: decode_utf8(kb),
                content: decode_utf8(cb),
                importance: imp as i32,
                depth: dep as i32,
                references: refs,
                embedding: embs,
            },
        )
    }
}


/// The list bytes of the first `k` references.
pub open spec fn refs_prefix(rs: Seq<u32>, k: int) -> Seq<u8>
    decreases k,
    when 0 <= k <= rs.len()
{
    if k <= 0 {
        Seq::empty()
    } else if k == 1 {
        ref_item(rs[0])
    } else {
        refs_prefix(rs, k - 1) + (seq![44u8] + ref_item(rs[k - 1]))
    }
}

/// The list bytes of the first `k` embedding components.
pub open spec fn embs_prefix(es: Seq<i64>, k: int) -> Seq<u8>
    decreases k,
    when 0 <= k <= es.len()
{
    if k <= 0 {
        Seq::empty()
    } else if k == 1 {
        dec_int(es[0] as int)
    } else {
        embs_prefix(es, k - 1) + (seq![44u8] + dec_int(es[k - 1] as int))
    }
}

proof fn lemma_refs_prefix_snoc(rs: Seq<u32>, k: int)
    requires
        0 <= k < rs.len(),
    ensures
        k == 0 ==> refs_prefix(rs, 1) == ref_item(rs[0]),
        k > 0 ==> refs_prefix(rs, k + 1) == refs_prefix(rs, k) + (seq![44u8] + ref_item(rs[k])),
{
}

proof fn lemma_embs_prefix_snoc(es: Seq<i64>, k: int)
    requires
        0 <= k < es.len(),
    ensures
        k == 0 ==> embs_prefix(es, 1) == dec_int(es[0] as int),
        k > 0 ==> embs_prefix(es, k + 1) == embs_prefix(es, k) + (seq![44u8] + dec_int(
            es[k] as int,
        )),
{
}

/// The full prefix is the whole list, in its right-nested form.
proof fn lemma_refs_prefix_full(rs: Seq<u32>)
    ensures
        refs_prefix(rs, rs.len() as int) == refs_bytes(rs),
    decreases rs.len(),
{
    lemma_refs_prefix_all(rs, rs.len() as int);
    assert(rs.subrange(0, rs.len() as int) =~= rs);
}

proof fn lemma_refs_prefix_all(rs: Seq<u32>, k: int)
    requires
        0 <= k <= rs.len(),
    ensures
        refs_prefix(rs, k) == refs_bytes(rs.subrange(0, k)),
    decreases k,
{
    if k <= 0 {
        assert(rs.subrange(0, 0) =~= Seq::<u32>::empty());
    } else {
        lemma_refs_prefix_all(rs, k - 1);
        lemma_refs_snoc(rs.subrange(0, k - 1), rs[k - 1]);
        assert(rs.subrange(0, k) =~= rs.subrange(0, k - 1).push(rs[k - 1]));
        if k == 1 {
            assert(rs.subrange(0, 1) =~= Seq::<u32>::empty().push(rs[0]));
        }
    }
}

/// Appending one reference to a list appends its separator and item.
proof fn lemma_refs_snoc(rs: Seq<u32>, r: u32)
    ensures
        rs.len() == 0 ==> refs_bytes(rs.push(r)) == ref_item(r),
        rs.len() > 0 ==> refs_bytes(rs.push(r)) == refs_bytes(rs) + (seq![44u8] + ref_item(r)),
    decreases rs.len(),
{
    let p = rs.push(r);
    if rs.len() == 0 {
        assert(p.len() == 1);
        assert(p[0] == r);
    } else {
        lemma_refs_snoc(rs.drop_first(), r);
        assert(p.drop_first() =~= rs.drop_first().push(r));
        assert(p[0] == rs[0]);
        if rs.len() == 1 {
            assert(refs_bytes(p) == ref_item(rs[0]) + (seq![44u8] + refs_bytes(
                p.drop_first(),
            )));
            assert(refs_bytes(p.drop_first()) == ref_item(r));
        } else {
            assert(refs_bytes(p) == ref_item(rs[0]) + (seq![44u8] + refs_bytes(p.drop_first())));
            assert(refs_bytes(rs) == ref_item(rs[0]) + (seq![44u8] + refs_bytes(rs.drop_first())));
            assert(ref_item(rs[0]) + (seq![44u8] + (refs_bytes(rs.drop_first()) + (seq![44u8]
                + ref_item(r)))) =~= (ref_item(rs[0]) + (seq![44u8] + refs_bytes(rs.drop_first())))
                + (seq![44u8] + ref_item(r)));
        }
    }
}

proof fn lemma_embs_prefix_full(es: Seq<i64>)
    ensures
        embs_prefix(es, es.len() as int) == embs_bytes(es),
{
    lemma_embs_prefix_all(es, es.len() as int);
    assert(es.subrange(0, es.len() as int) =~= es);
}

proof fn lemma_embs_prefix_all(es: Seq<i64>, k: int)
    requires
        0 <= k <= es.len(),
    ensures
        embs_prefix(es, k) == embs_bytes(es.subrange(0, k)),
    decreases k,
{
    if k <= 0 {
        assert(es.subrange(0, 0) =~= Seq::<i64>::empty());
    } else {
        lemma_embs_prefix_all(es, k - 1);
        lemma_embs_snoc(es.subrange(0, k - 1), es[k - 1]);
        assert(es.subrange(0, k) =~= es.subrange(0, k - 1).push(es[k - 1]));
        if k == 1 {
            assert(es.subrange(0, 1) =~= Seq::<i64>::empty().push(es[0]));
        }
    }
}

proof fn lemma_embs_snoc(es: Seq<i64>, v: i64)
    ensures
        es.len() == 0 ==> embs_bytes(es.push(v)) == dec_int(v as int),
        es.len() > 0 ==> embs_bytes(es.push(v)) == embs_bytes(es) + (seq![44u8] + dec_int(
            v as int,
        )),
    decreases es.len(),
{
    let p = es.push(v);
    if es.len() == 0 {
        assert(p.len() == 1);
        assert(p[0] == v);
    } else {
        lemma_embs_snoc(es.drop_first(), v);
        assert(p.drop_first() =~= es.drop_first().push(v));
        assert(p[0] == es[0]);
        if es.len() == 1 {
            assert(embs_bytes(p) == dec_int(es[0] as int) + (seq![44u8] + embs_bytes(
                p.drop_first(),
            )));
            assert(embs_bytes(p.drop_first()) == dec_int(v as int));
        } else {
            assert(embs_bytes(p) == dec_int(es[0] as int) + (seq![44u8] + embs_bytes(
                p.drop_first(),
            )));
            assert(embs_bytes(es) == dec_int(es[0] as int) + (seq![44u8] + embs_bytes(
                es.drop_first(),
            )));
            assert(dec_int(es[0] as int) + (seq![44u8] + (embs_bytes(es.drop_first()) + (seq![44u8]
                + dec_int(v as int)))) =~= (dec_int(es[0] as int) + (seq![44u8] + embs_bytes(
                es.drop_first(),
            ))) + (seq![44u8] + dec_int(v as int)));
        }
    }
}


// ---------------------------------------------------------------------------
// The executable parser
// ---------------------------------------------------------------------------

/// Match a literal chunk at `i`.
fn eat_lit(s: &[u8], i: usize, lit: &[u8]) -> (r: Option<usize>)
    requires
        i <= s@.len(),
    ensures
        match r {
            Some(j) => eat_spec(s@, i as int, lit@) == Some(j as int) && i <= j <= s@.len(),
            None => eat_spec(s@, i as int, lit@) is None,
        },
{
    let n = s.len();
    let m = lit.len();
    if m > n - i {
        return None;
    }
    let sub = slice_subrange(s, i, i + m);
    if crate::strutil::bytes_eq(sub, lit) {
        Some(i + m)
    } else {
        None
    }
}

/// Read a signed number at `i` and require it to lie in `[lo, hi]`.
fn parse_int_at(s: &[u8], i: usize, lo: i64, hi: i64) -> (r: Option<(i64, usize)>)
    requires
        i <= s@.len(),
        -1000000000000000 <= lo <= hi <= 1000000000000000,
    ensures
        match r {
            Some((v, j)) => {
                &&& scan_int(s@, i as int) == Some((v as int, j as int))
                &&& lo <= v <= hi
                &&& i < j <= s@.len()
            },
            None => ({
                let o = scan_int(s@, i as int);
                o is None || o->Some_0.0 < lo || o->Some_0.0 > hi
            }),
        },
{
    let n = s.len();
    if i < n && s[i] == 45 {
        match parse_number(s, i + 1, 1000000000000000u64) {
            None => None,
            Some((v, j)) => {
                let val = -(v as i64);
                if val < lo || val > hi {
                    None
                } else {
                    Some((val, j))
                }
            },
        }
    } else {
        match parse_number(s, i, 1000000000000000u64) {
            None => None,
            Some((v, j)) => {
                let val = v as i64;
                if val < lo || val > hi {
                    None
                } else {
                    Some((val, j))
                }
            },
        }
    }
}

/// Read the reference list at `i`, mirroring `scan_refs`.
fn parse_refs_at(s: &[u8], i: usize) -> (r: Option<(Vec<u32>, usize)>)
    requires
        i <= s@.len(),
    ensures
        match r {
            Some((vs, j)) => scan_refs(s@, i as int) == Some((vs@, j as int)) && i <= j
                <= s@.len(),
            None => scan_refs(s@, i as int) is None,
        },
{
    let n = s.len();
    let mut out: Vec<u32> = Vec::new();
    let mut j: usize = i;
    proof {
        if let Some((vs, k)) = scan_refs(s@, i as int) {
            assert(Seq::<u32>::empty() + vs =~= vs);
        }
    }
    loop
        invariant
            i <= j <= n,
            n == s@.len(),
            match scan_refs(s@, j as int) {
                Some((vs, k)) => scan_refs(s@, i as int) == Some((out@ + vs, k)),
                None => scan_refs(s@, i as int) is None,
            },
        decreases n - j,
    {
        if j == n {
            return None;
        }
        if s[j] == 93 {
            proof {
                assert(out@ + Seq::<u32>::empty() =~= out@);
            }
            return Some((out, j));
        }
        let j1 = match eat_lit(s, j, &[34u8, 109, 95]) {
            Some(x) => x,
            None => {
                return None;
            },
        };
        let (v, j2) = match parse_number(s, j1, 0xFFFF_FFFFu64) {
            Some(x) => x,
            None => {
                return None;
            },
        };
        if j2 == n || s[j2] != 34 {
            return None;
        }
        let j3 = j2 + 1;
        proof {
            assert(scan_ref_item(s@, j as int) == Some(((v as nat), (j3 as int))));
        }
        if j3 < n && s[j3] == 44 {
            proof {
                if let Some((vs, k)) = scan_refs(s@, j3 + 1) {
                    assert(scan_refs(s@, j as int) == Some((seq![v as u32] + vs, k)));
                    assert(out@ + (seq![v as u32] + vs) =~= out@.push(v as u32) + vs);
                }
            }
            out.push(v as u32);
            j = j3 + 1;
        } else if j3 < n && s[j3] == 93 {
            proof {
                assert(scan_refs(s@, j as int) == Some((seq![v as u32], j3 as int)));
                assert(out@ + seq![v as u32] =~= out@.push(v as u32));
            }
            out.push(v as u32);
            return Some((out, j3));
        } else {
            return None;
        }
    }
}

/// Read the embedding list at `i`, mirroring `scan_embs`.
fn parse_embs_at(s: &[u8], i: usize) -> (r: Option<(Vec<i64>, usize)>)
    requires
        i <= s@.len(),
    ensures
        match r {
            Some((vs, j)) => {
                &&& scan_embs(s@, i as int) == Some((vs@, j as int))
                &&& i <= j <= s@.len()
                &&& forall|t: int|
                    0 <= t < vs@.len() ==> -EMB_MAX_ABS <= #[trigger] vs@[t] <= EMB_MAX_ABS
            },
            None => scan_embs(s@, i as int) is None,
        },
{
    let n = s.len();
    let mut out: Vec<i64> = Vec::new();
    let mut j: usize = i;
    proof {
        if let Some((vs, k)) = scan_embs(s@, i as int) {
            assert(Seq::<i64>::empty() + vs =~= vs);
        }
    }
    loop
        invariant
            i <= j <= n,
            n == s@.len(),
            forall|t: int| 0 <= t < out@.len() ==> -EMB_MAX_ABS <= #[trigger] out@[t]
                <= EMB_MAX_ABS,
            match scan_embs(s@, j as int) {
                Some((vs, k)) => scan_embs(s@, i as int) == Some((out@ + vs, k)),
                None => scan_embs(s@, i as int) is None,
            },
        decreases n - j,
    {
        if j == n {
            return None;
        }
        if s[j] == 93 {
            proof {
                assert(out@ + Seq::<i64>::empty() =~= out@);
            }
            return Some((out, j));
        }
        let (v, j2) = match parse_int_at(s, j, -EMB_MAX_ABS, EMB_MAX_ABS) {
            Some(x) => x,
            None => {
                return None;
            },
        };
        if j2 < n && s[j2] == 44 {
            proof {
                if let Some((vs, k)) = scan_embs(s@, j2 + 1) {
                    assert(scan_embs(s@, j as int) == Some((seq![v] + vs, k)));
                    assert(out@ + (seq![v] + vs) =~= out@.push(v) + vs);
                }
            }
            out.push(v);
            j = j2 + 1;
        } else if j2 < n && s[j2] == 93 {
            proof {
                assert(scan_embs(s@, j as int) == Some((seq![v], j2 as int)));
                assert(out@ + seq![v] =~= out@.push(v));
            }
            out.push(v);
            return Some((out, j2));
        } else {
            return None;
        }
    }
}

/// Relies on `String::from_utf8`: it accepts exactly the valid UTF-8 byte
/// strings and decodes them without change.
#[verifier::external_body]
pub(crate) fn vec_to_string(v: Vec<u8>) -> (r: Option<String>)
    ensures
        r is Some <==> valid_utf8(v@),
        r matches Some(st) ==> st@ == decode_utf8(v@),
{
    match String::from_utf8(v) {
        Ok(st) => Some(st),
        Err(_) => None,
    }
}

/// Parse one ledger line back into a record. A line that does not carry
/// exactly the encoder's shape is corrupt and yields nothing.
#[verifier::rlimit(100)]
pub fn parse_memory(line: &[u8]) -> (r: Option<Memory>)
    ensures
        match r {
            Some(mem) => parse_mem(line@) == Some(mem@) && memory_wf(mem@),
            None => parse_mem(line@) is None,
        },
{
    let s = line;
    let n = s.len();
    let l_id: &[u8] = &[123u8, 34, 105, 100, 34, 58, 34, 109, 95];
    let l_ts: &[u8] = &[34u8, 44, 34, 116, 105, 109, 101, 115, 116, 97, 109, 112, 34, 58, 34];
    let l_kind: &[u8] = &[44u8, 34, 107, 105, 110, 100, 34, 58, 34];
    let l_content: &[u8] = &[44u8, 34, 99, 111, 110, 116, 101, 110, 116, 34, 58, 34];
    let l_imp: &[u8] = &[44u8, 34, 105, 109, 112, 111, 114, 116, 97, 110, 99, 101, 34, 58];
    let l_depth: &[u8] = &[44u8, 34, 100, 101, 112, 116, 104, 34, 58];
    let l_refs: &[u8] = &[44u8, 34, 114, 101, 102, 101, 114, 101, 110, 99, 101, 115, 34, 58, 91];
    let l_emb: &[u8] = &[93u8, 44, 34, 101, 109, 98, 101, 100, 100, 105, 110, 103, 34, 58, 91];
    let l_close: &[u8] = &[93u8, 125];
    proof {
        assert(l_id@ =~= lit_id());
        assert(l_ts@ =~= lit_timestamp());
        assert(l_kind@ =~= lit_kind().drop_first());
        assert(l_content@ =~= lit_content().drop_first());
        assert(l_imp@ =~= lit_importance().drop_first());
        assert(l_depth@ =~= lit_depth());
        assert(l_refs@ =~= lit_references());
        assert(l_emb@ =~= lit_embedding());
        assert(l_close@ =~= lit_close());
    }
    let p1 = match eat_lit(s, 0, l_id) {
        Some(x) => x,
        None => {
            return None;
        },
    };
    let (idv, p2) = match parse_number(s, p1, 0xFFFF_FFFEu64) {
        Some(x) => x,
        None => {
            return None;
        },
    };
    let p3 = match eat_lit(s, p2, l_ts) {
        Some(x) => x,
        None => {
            return None;
        },
    };
    let (tsb, p4) = match scan_string_exec(s, p3) {
        Some(x) => x,
        None => {
            return None;
        },
    };
    let p5 = match eat_lit(s, p4, l_kind) {
        Some(x) => x,
        None => {
            return None;
        },
    };
    let (kb, p6) = match scan_string_exec(s, p5) {
        Some(x) => x,
        None => {
            return None;
        },
    };
    let p7 = match eat_lit(s, p6, l_content) {
        Some(x) => x,
        None => {
            return None;
        },
    };
    let (cb, p8) = match scan_string_exec(s, p7) {
        Some(x) => x,
        None => {
            return None;
        },
    };
    let p9 = match eat_lit(s, p8, l_imp) {
        Some(x) => x,
        None => {
            return None;
        },
    };
    let (imp, p10) = match parse_int_at(s, p9, 1, 10) {
        Some(x) => x,
        None => {
            return None;
        },
    };
    let p11 = match eat_lit(s, p10, l_depth) {
        Some(x) => x,
        None => {
            return None;
        },
    };
    let (dep, p12) = match parse_int_at(s, p11, -2147483648, 2147483647) {
        Some(x) => x,
        None => {
            return None;
        },
    };
    let p13 = match eat_lit(s, p12, l_refs) {
        Some(x) => x,
        None => {
            return None;
        },
    };
    let (refs, p14) = match parse_refs_at(s, p13) {
        Some(x) => x,
        None => {
            return None;
        },
    };
    let p15 = match eat_lit(s, p14, l_emb) {
        Some(x) => x,
        None => {
            return None;
        },
    };
    let (embs, p16) = match parse_embs_at(s, p15) {
        Some(x) => x,
        None => {
            return None;
        },
    };
    if embs.len() > EMB_MAX_LEN {
        return None;
    }
    let p17 = match eat_lit(s, p16, l_close) {
        Some(x) => x,
        None => {
            return None;
        },
    };
    if p17 != n {
        return None;
    }
    let ghost tsbv = tsb@;
    let ghost kbv = kb@;
    let ghost cbv = cb@;
    let ts = match vec_to_string(tsb) {
        Some(x) => x,
        None => {
            return None;
        },
    };
    let kind = match vec_to_string(kb) {
        Some(x) => x,
        None => {
            return None;
        },
    };
    let content = match vec_to_string(cb) {
        Some(x) => x,
        None => {
            return None;
        },
    };
    let mem = Memory {
        id: idv as u32,
        timestamp: ts,
        kind,
        content,
        importance: imp as i32,
        depth: dep as i32,
        references: refs,
        embedding: embs,
    };
    proof {
        assert(parse_finish(
            s@,
            p17 as int,
            idv as nat,
            tsbv,
            kbv,
            cbv,
            imp as int,
            dep as int,
            refs@,
            embs@,
        ) == Some(mem@));
    }
    Some(mem)
}


// ---------------------------------------------------------------------------
// Round trip: parsing an encoded line gives back the record
// ---------------------------------------------------------------------------

/// A subrange that equals a concatenation splits into its two parts.
proof fn lemma_split_at(s: Seq<u8>, i: int, c: Seq<u8>, d: Seq<u8>)
    requires
        0 <= i,
        i + c.len() + d.len() <= s.len(),
        s.subrange(i, i + c.len() + d.len()) == c + d,
    ensures
        s.subrange(i, i + c.len()) == c,
        s.subrange(i + c.len(), i + c.len() + d.len()) == d,
{
    assert forall|k: int| 0 <= k < c.len() implies s.subrange(i, i + c.len())[k] == c[k] by {
        assert(s.subrange(i, i + c.len() + d.len())[k] == s[i + k]);
        assert((c + d)[k] == c[k]);
    }
    assert(s.subrange(i, i + c.len()) =~= c);
    assert forall|k: int| 0 <= k < d.len() implies s.subrange(
        i + c.len(),
        i + c.len() + d.len(),
    )[k] == d[k] by {
        assert(s.subrange(i, i + c.len() + d.len())[c.len() + k] == s[i + c.len() + k]);
        assert((c + d)[c.len() + k] == d[k]);
    }
    assert(s.subrange(i + c.len(), i + c.len() + d.len()) =~= d);
}

proof fn lemma_digits_value_zeros(k: nat)
    ensures
        digits_value(Seq::new(k, |t: int| 48u8)) == 0,
    decreases k,
{
    if k > 0 {
        lemma_digits_value_zeros((k - 1) as nat);
        let z = Seq::new(k, |t: int| 48u8);
        assert(z.drop_last() =~= Seq::new((k - 1) as nat, |t: int| 48u8));
        assert(z.last() == 48);
    }
}

/// The padded id digits: all digits, and their value is the id.
proof fn lemma_pad4_value(n: nat)
    ensures
        pad4(dec_digits(n)).len() >= 1,
        forall|t: int|
            0 <= t < pad4(dec_digits(n)).len() ==> is_digit(#[trigger] pad4(dec_digits(n))[t]),
        digits_value(pad4(dec_digits(n))) == n,
{
    let d = dec_digits(n);
    lemma_dec_digits_all_digits(n);
    lemma_dec_digits_value(n);
    if d.len() < 4 {
        let z = Seq::new((4 - d.len()) as nat, |t: int| 48u8);
        lemma_digits_value_zeros((4 - d.len()) as nat);
        lemma_digits_value_concat(z, d);
        assert(digits_value(z) * pow10(d.len()) == 0) by (nonlinear_arith)
            requires
                digits_value(z) == 0,
        ;
        assert forall|t: int| 0 <= t < pad4(d).len() implies is_digit(#[trigger] pad4(d)[t]) by {
            if t < z.len() {
                assert(pad4(d)[t] == z[t]);
                assert(z[t] == 48);
            } else {
                assert(pad4(d)[t] == d[t - z.len()]);
            }
        }
    }
}

/// Reading a printed signed number finds its value.
proof fn lemma_scan_int_round(v: int, s: Seq<u8>, i: int)
    requires
        0 <= i,
        i + dec_int(v).len() <= s.len(),
        s.subrange(i, i + dec_int(v).len()) == dec_int(v),
        i + dec_int(v).len() == s.len() || !is_digit(s[i + dec_int(v).len()]),
    ensures
        scan_int(s, i) == Some((v, i + dec_int(v).len())),
{
    if v < 0 {
        let d = dec_digits((-v) as nat);
        lemma_dec_digits_all_digits((-v) as nat);
        lemma_dec_digits_value((-v) as nat);
        assert(dec_int(v) == seq![45u8] + d);
        lemma_split_at(s, i, seq![45u8], d);
        assert(s[i] == 45) by {
            assert(s.subrange(i, i + 1)[0] == s[i]);
        }
        let e = i + 1 + d.len();
        assert forall|k: int| i + 1 <= k < e implies is_digit(s[k]) by {
            assert(s.subrange(i + 1, e)[k - (i + 1)] == s[k]);
        }
        lemma_scan_digit_block(s, i + 1, e, 0);
        assert(digits_value(s.subrange(i + 1, e)) == (-v) as nat);
        assert(0 * pow10((e - (i + 1)) as nat) == 0) by (nonlinear_arith);
        assert(scan_digits(s, i + 1, 0) == (((-v) as nat), e));
    } else {
        let d = dec_digits(v as nat);
        lemma_dec_digits_all_digits(v as nat);
        lemma_dec_digits_value(v as nat);
        let e = i + d.len();
        assert forall|k: int| i <= k < e implies is_digit(s[k]) by {
            assert(s.subrange(i, e)[k - i] == s[k]);
        }
        assert(s[i] != 45);
        lemma_scan_digit_block(s, i, e, 0);
        assert(0 * pow10((e - i) as nat) == 0) by (nonlinear_arith);
        assert(scan_digits(s, i, 0) == ((v as nat), e));
    }
}

/// Reading a printed reference finds its value.
proof fn lemma_scan_ref_item_round(r: u32, s: Seq<u8>, i: int)
    requires
        0 <= i,
        i + ref_item(r).len() <= s.len(),
        s.subrange(i, i + ref_item(r).len()) == ref_item(r),
    ensures
        scan_ref_item(s, i) == Some(((r as nat), i + ref_item(r).len())),
{
    let pd = pad4(dec_digits(r as nat));
    lemma_pad4_value(r as nat);
    assert(ref_item(r) =~= seq![34u8, 109, 95] + (pd + seq![34u8]));
    lemma_split_at(s, i, seq![34u8, 109, 95], pd + seq![34u8]);
    lemma_split_at(s, i + 3, pd, seq![34u8]);
    let e = i + 3 + pd.len();
    assert(eat_spec(s, i, seq![34u8, 109, 95]) == Some(i + 3));
    assert forall|k: int| i + 3 <= k < e implies is_digit(s[k]) by {
        assert(s.subrange(i + 3, e)[k - (i + 3)] == s[k]);
    }
    assert(s[e] == 34) by {
        assert(s.subrange(e, e + 1)[0] == s[e]);
    }
    lemma_scan_digit_block(s, i + 3, e, 0);
    assert(0 * pow10((e - (i + 3)) as nat) == 0) by (nonlinear_arith);
    assert(scan_digits(s, i + 3, 0) == ((r as nat), e));
}

/// Reading a printed reference list finds the list.
proof fn lemma_scan_refs_round(rs: Seq<u32>, s: Seq<u8>, i: int)
    requires
        0 <= i,
        i + refs_bytes(rs).len() < s.len(),
        s.subrange(i, i + refs_bytes(rs).len()) == refs_bytes(rs),
        s[i + refs_bytes(rs).len()] == 93,
    ensures
        scan_refs(s, i) == Some((rs, i + refs_bytes(rs).len())),
    decreases rs.len(),
{
    if rs.len() == 0 {
        assert(s[i] == 93);
    } else if rs.len() == 1 {
        let il = ref_item(rs[0]).len();
        assert(refs_bytes(rs) == ref_item(rs[0]));
        lemma_scan_ref_item_round(rs[0], s, i);
        assert(s[i] == 34) by {
            assert(s.subrange(i, i + il)[0] == s[i]);
            assert(ref_item(rs[0])[0] == 34);
        }
        assert(seq![rs[0]] =~= rs);
    } else {
        let it = ref_item(rs[0]);
        let il = it.len();
        let rest = refs_bytes(rs.drop_first());
        assert(refs_bytes(rs) == it + (seq![44u8] + rest));
        lemma_split_at(s, i, it, seq![44u8] + rest);
        lemma_split_at(s, i + il, seq![44u8], rest);
        lemma_scan_ref_item_round(rs[0], s, i);
        assert(s[i] == 34) by {
            assert(s.subrange(i, i + il)[0] == s[i]);
            assert(it[0] == 34);
        }
        assert(s[i + il] == 44) by {
            assert(s.subrange(i + il, i + il + 1)[0] == s[i + il]);
        }
        assert(il >= 4) by {
            lemma_pad4_value(rs[0] as nat);
        }
        lemma_scan_refs_round(rs.drop_first(), s, i + il + 1);
        assert(seq![rs[0]] + rs.drop_first() =~= rs);
    }
}

/// Reading a printed embedding list finds the list.
proof fn lemma_scan_embs_round(es: Seq<i64>, s: Seq<u8>, i: int)
    requires
        0 <= i,
        i + embs_bytes(es).len() < s.len(),
        s.subrange(i, i + embs_bytes(es).len()) == embs_bytes(es),
        s[i + embs_bytes(es).len()] == 93,
        forall|t: int| 0 <= t < es.len() ==> -EMB_MAX_ABS <= #[trigger] es[t] <= EMB_MAX_ABS,
    ensures
        scan_embs(s, i) == Some((es, i + embs_bytes(es).len())),
    decreases es.len(),
{
    if es.len() == 0 {
        assert(s[i] == 93);
    } else {
        let v = es[0] as int;
        let it = dec_int(v);
        let il = it.len();
        assert(it[0] == 45 || is_digit(it[0])) by {
            if v < 0 {
            } else {
                lemma_dec_digits_all_digits(v as nat);
            }
        }
        if es.len() == 1 {
            assert(embs_bytes(es) == it);
            lemma_scan_int_round(v, s, i);
            assert(s[i] == it[0]) by {
                assert(s.subrange(i, i + il)[0] == s[i]);
            }
            assert(s[i] != 93);
            assert(seq![es[0]] =~= es);
        } else {
            let rest = embs_bytes(es.drop_first());
            assert(embs_bytes(es) == it + (seq![44u8] + rest));
            lemma_split_at(s, i, it, seq![44u8] + rest);
            lemma_split_at(s, i + il, seq![44u8], rest);
            assert(s[i + il] == 44) by {
                assert(s.subrange(i + il, i + il + 1)[0] == s[i + il]);
            }
            lemma_scan_int_round(v, s, i);
            assert(s[i] == it[0]) by {
                assert(s.subrange(i, i + il)[0] == s[i]);
            }
            assert(s[i] != 93);
            assert(il >= 1);
            assert forall|t: int|
                0 <= t < es.drop_first().len() implies -EMB_MAX_ABS <= #[trigger] es.drop_first()[t]
                <= EMB_MAX_ABS by {
                assert(es.drop_first()[t] == es[t + 1]);
            }
            lemma_scan_embs_round(es.drop_first(), s, i + il + 1);
            assert(seq![es[0]] + es.drop_first() =~= es);
        }
    }
}

/// Parsing from the reference list on finds the record's tail fields.
proof fn lemma_rt_from_refs(m: MemModel, s: Seq<u8>, p: int)
    requires
        memory_wf(m),
        0 <= p <= s.len(),
        s.subrange(p, s.len() as int) == line_from_refs(m),
    ensures
        parse_at_refs(
            s,
            p,
            m.id as nat,
            vstd::utf8::encode_utf8(m.timestamp),
            vstd::utf8::encode_utf8(m.kind),
            vstd::utf8::encode_utf8(m.content),
            m.importance as int,
            m.depth as int,
        ) == Some(m),
{
    assert(s.subrange(p, s.len() as int).len() == line_from_refs(m).len());
    broadcast use vstd::utf8::encode_utf8_valid_utf8;
    broadcast use vstd::utf8::encode_utf8_decode_utf8;

    let refsb = refs_bytes(m.references);
    let embsb = embs_bytes(m.embedding);
    let a13 = p;
    let a14 = a13 + refsb.len();
    let a15 = a14 + lit_embedding().len();
    let a16 = a15 + embsb.len();
    let a17 = a16 + lit_close().len();
    assert(s.len() == a17);
    lemma_split_at(s, a13, refsb, lit_embedding() + (embsb + lit_close()));
    lemma_split_at(s, a14, lit_embedding(), embsb + lit_close());
    lemma_split_at(s, a15, embsb, lit_close());
    assert(s[a14] == 93) by {
        assert(s.subrange(a14, a15)[0] == s[a14]);
    }
    assert(s[a16] == 93) by {
        assert(s.subrange(a16, a17)[0] == s[a16]);
    }
    lemma_scan_refs_round(m.references, s, a13);
    lemma_scan_embs_round(m.embedding, s, a15);
    assert(eat_spec(s, a14, lit_embedding()) == Some(a15));
    assert(eat_spec(s, a16, lit_close()) == Some(a17));
}

/// Parsing from the depth number on.
proof fn lemma_rt_from_depth(m: MemModel, s: Seq<u8>, p: int)
    requires
        memory_wf(m),
        0 <= p <= s.len(),
        s.subrange(p, s.len() as int) == line_from_depth(m),
    ensures
        parse_at_depth(
            s,
            p,
            m.id as nat,
            vstd::utf8::encode_utf8(m.timestamp),
            vstd::utf8::encode_utf8(m.kind),
            vstd::utf8::encode_utf8(m.content),
            m.importance as int,
        ) == Some(m),
{
    assert(s.subrange(p, s.len() as int).len() == line_from_depth(m).len());
    let d_dep = dec_int(m.depth as int);
    let a11 = p;
    let a12 = a11 + d_dep.len();
    let a13 = a12 + lit_references().len();
    lemma_split_at(s, a11, d_dep, lit_references() + line_from_refs(m));
    lemma_split_at(s, a12, lit_references(), line_from_refs(m));
    assert(s[a12] == 44) by {
        assert(s.subrange(a12, a13)[0] == s[a12]);
    }
    lemma_scan_int_round(m.depth as int, s, a11);
    assert(eat_spec(s, a12, lit_references()) == Some(a13));
    lemma_rt_from_refs(m, s, a13);
}

/// Parsing from the importance number on.
proof fn lemma_rt_from_importance(m: MemModel, s: Seq<u8>, p: int)
    requires
        memory_wf(m),
        0 <= p <= s.len(),
        s.subrange(p, s.len() as int) == line_from_importance(m),
    ensures
        parse_at_importance(
            s,
            p,
            m.id as nat,
            vstd::utf8::encode_utf8(m.timestamp),
            vstd::utf8::encode_utf8(m.kind),
            vstd::utf8::encode_utf8(m.content),
        ) == Some(m),
{
    assert(s.subrange(p, s.len() as int).len() == line_from_importance(m).len());
    let d_imp = dec_int(m.importance as int);
    let a9 = p;
    let a10 = a9 + d_imp.len();
    let a11 = a10 + lit_depth().len();
    lemma_split_at(s, a9, d_imp, lit_depth() + line_from_depth(m));
    lemma_split_at(s, a10, lit_depth(), line_from_depth(m));
    assert(s[a10] == 44) by {
        assert(s.subrange(a10, a11)[0] == s[a10]);
    }
    lemma_scan_int_round(m.importance as int, s, a9);
    assert(eat_spec(s, a10, lit_depth()) == Some(a11));
    lemma_rt_from_depth(m, s, a11);
}

/// Parsing from the content text on.
proof fn lemma_rt_from_content(m: MemModel, s: Seq<u8>, p: int)
    requires
        memory_wf(m),
        0 <= p <= s.len(),
        s.subrange(p, s.len() as int) == line_from_content(m),
    ensures
        parse_at_content(
            s,
            p,
            m.id as nat,
            vstd::utf8::encode_utf8(m.timestamp),
            vstd::utf8::encode_utf8(m.kind),
        ) == Some(m),
{
    assert(s.subrange(p, s.len() as int).len() == line_from_content(m).len());
    let ec = escape_bytes(vstd::utf8::encode_utf8(m.content));
    let a7 = p;
    let a8 = a7 + ec.len();
    let a9 = a8 + lit_importance().len();
    lemma_split_at(s, a7, ec, lit_importance() + line_from_importance(m));
    lemma_split_at(s, a8, lit_importance(), line_from_importance(m));
    assert(s[a8] == 34) by {
        assert(s.subrange(a8, a9)[0] == s[a8]);
    }
    lemma_scan_escape(vstd::utf8::encode_utf8(m.content), s, a7);
    assert(s.subrange(a8 + 1, a9) =~= lit_importance().drop_first()) by {
        assert forall|k: int| 0 <= k < lit_importance().len() - 1 implies s.subrange(
            a8 + 1,
            a9,
        )[k] == lit_importance().drop_first()[k] by {
            assert(s.subrange(a8, a9)[k + 1] == s[a8 + 1 + k]);
        }
    }
    assert(eat_spec(s, a8 + 1, lit_importance().drop_first()) == Some(a9));
    lemma_rt_from_importance(m, s, a9);
}

/// Parsing from the kind text on.
proof fn lemma_rt_from_kind(m: MemModel, s: Seq<u8>, p: int)
    requires
        memory_wf(m),
        0 <= p <= s.len(),
        s.subrange(p, s.len() as int) == line_from_kind(m),
    ensures
        parse_at_kind(s, p, m.id as nat, vstd::utf8::encode_utf8(m.timestamp)) == Some(m),
{
    assert(s.subrange(p, s.len() as int).len() == line_from_kind(m).len());
    let ek = escape_bytes(vstd::utf8::encode_utf8(m.kind));
    let a5 = p;
    let a6 = a5 + ek.len();
    let a7 = a6 + lit_content().len();
    lemma_split_at(s, a5, ek, lit_content() + line_from_content(m));
    lemma_split_at(s, a6, lit_content(), line_from_content(m));
    assert(s[a6] == 34) by {
        assert(s.subrange(a6, a7)[0] == s[a6]);
    }
    lemma_scan_escape(vstd::utf8::encode_utf8(m.kind), s, a5);
    assert(s.subrange(a6 + 1, a7) =~= lit_content().drop_first()) by {
        assert forall|k: int| 0 <= k < lit_content().len() - 1 implies s.subrange(a6 + 1, a7)[k]
            == lit_content().drop_first()[k] by {
            assert(s.subrange(a6, a7)[k + 1] == s[a6 + 1 + k]);
        }
    }
    assert(eat_spec(s, a6 + 1, lit_content().drop_first()) == Some(a7));
    lemma_rt_from_content(m, s, a7);
}

/// Parsing from the timestamp text on.
proof fn lemma_rt_from_ts(m: MemModel, s: Seq<u8>, p: int)
    requires
        memory_wf(m),
        0 <= p <= s.len(),
        s.subrange(p, s.len() as int) == line_from_ts(m),
    ensures
        parse_at_ts(s, p, m.id as nat) == Some(m),
{
    assert(s.subrange(p, s.len() as int).len() == line_from_ts(m).len());
    let ets = escape_bytes(vstd::utf8::encode_utf8(m.timestamp));
    let a3 = p;
    let a4 = a3 + ets.len();
    let a5 = a4 + lit_kind().len();
    lemma_split_at(s, a3, ets, lit_kind() + line_from_kind(m));
    lemma_split_at(s, a4, lit_kind(), line_from_kind(m));
    assert(s[a4] == 34) by {
        assert(s.subrange(a4, a5)[0] == s[a4]);
    }
    lemma_scan_escape(vstd::utf8::encode_utf8(m.timestamp), s, a3);
    assert(s.subrange(a4 + 1, a5) =~= lit_kind().drop_first()) by {
        assert forall|k: int| 0 <= k < lit_kind().len() - 1 implies s.subrange(a4 + 1, a5)[k]
            == lit_kind().drop_first()[k] by {
            assert(s.subrange(a4, a5)[k + 1] == s[a4 + 1 + k]);
        }
    }
    assert(eat_spec(s, a4 + 1, lit_kind().drop_first()) == Some(a5));
    lemma_rt_from_kind(m, s, a5);
}

/// The subrange over a whole sequence is the sequence.
proof fn lemma_subrange_full(s: Seq<u8>)
    ensures
        s.subrange(0, s.len() as int) == s,
{
    assert(s.subrange(0, s.len() as int) =~= s);
}

/// Parsing from the id digits on.
proof fn lemma_rt_from_id(m: MemModel, s: Seq<u8>, p: int)
    requires
        memory_wf(m),
        0 <= p <= s.len(),
        s.subrange(p, s.len() as int) == line_from_id(m),
    ensures
        parse_at_id(s, p) == Some(m),
{
    assert(s.subrange(p, s.len() as int).len() == line_from_id(m).len());
    let c2 = pad4(dec_digits(m.id as nat));
    let a1 = p;
    let a2 = a1 + c2.len();
    let a3 = a2 + lit_timestamp().len();
    lemma_split_at(s, a1, c2, lit_timestamp() + line_from_ts(m));
    lemma_split_at(s, a2, lit_timestamp(), line_from_ts(m));
    lemma_pad4_value(m.id as nat);
    assert(s[a2] == 34) by {
        assert(s.subrange(a2, a3)[0] == s[a2]);
    }
    assert forall|k: int| a1 <= k < a2 implies is_digit(s[k]) by {
        assert(s.subrange(a1, a2)[k - a1] == s[k]);
    }
    lemma_scan_digit_block(s, a1, a2, 0);
    assert(0 * pow10((a2 - a1) as nat) == 0) by (nonlinear_arith);
    assert(scan_digits(s, a1, 0) == ((m.id as nat), a2));
    assert(eat_spec(s, a2, lit_timestamp()) == Some(a3));
    lemma_rt_from_ts(m, s, a3);
}

/// Round trip: a well-formed record written to the ledger parses back
/// field-for-field identical. This holds for every record the stream can
/// produce.
pub proof fn lemma_ledger_round_trip(m: MemModel)
    requires
        memory_wf(m),
    ensures
        parse_mem(memory_line(m)) == Some(m),
{
    let s = memory_line(m);
    lemma_subrange_full(s);
    assert(s == lit_id() + line_from_id(m));
    lemma_split_at(s, 0, lit_id(), line_from_id(m));
    assert(eat_spec(s, 0, lit_id()) == Some(lit_id().len() as int));
    lemma_rt_from_id(m, s, lit_id().len() as int);
}

} // verus!
