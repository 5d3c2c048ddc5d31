//! Drawing instructions written out as the text of a content stream: numbers
//! in plain decimal notation, each operation on a line of its own.

use vstd::arithmetic::div_mod::{
    lemma_fundamental_div_mod,
    lemma_fundamental_div_mod_converse,
    lemma_mod_bound,
    lemma_small_mod,
};
use vstd::prelude::*;
use crate::instruction::Op;
use crate::units::SCALE;

verus! {

/// The stem `Watermark` of the names of reusable resources.
pub const RESOURCE_STEM: [u8; 9] = [87, 97, 116, 101, 114, 109, 97, 114, 107];

/// The stem `GS` of the names of shared graphics states.
pub const STATE_STEM: [u8; 2] = [71, 83];

/// The character that stands for a digit.
pub open spec fn digit(d: int) -> u8 {
    (48 + d) as u8
}

/// A natural number in decimal notation, without leading zeros.
pub open spec fn digits(n: nat) -> Seq<u8>
    decreases n,
{
    if n < 10 {
        seq![digit(n as int)]
    } else {
        digits(n / 10).push(digit((n % 10) as int))
    }
}

/// The last `width` decimal digits of a number, leading zeros written out.
pub open spec fn padded(n: nat, width: nat) -> Seq<u8>
    decreases width,
{
    if width == 0 {
        Seq::empty()
    } else {
        padded(n / 10, (width - 1) as nat).push(digit((n % 10) as int))
    }
}

/// A run of digits without the zeros at its end.
pub open spec fn strip_zeros(s: Seq<u8>) -> Seq<u8>
    decreases s.len(),
{
    if s.len() > 0 && s.last() == 48 {
        strip_zeros(s.drop_last())
    } else {
        s
    }
}

/// A fixed-point number in decimal notation: a minus sign where it is
/// negative, the whole part, and, where there is a fraction, a point and the
/// six digits of the fraction without the zeros at their end.
pub open spec fn number_text(v: i64) -> Seq<u8> {
    let m = if v < 0 {
        -(v as int)
    } else {
        v as int
    };
    let sign = if v < 0 {
        seq![45u8]
    } else {
        Seq::<u8>::empty()
    };
    let whole = digits((m / (SCALE as int)) as nat);
    let part = m % (SCALE as int);
    if part == 0 {
        sign + whole
    } else {
        sign + whole + seq![46u8] + strip_zeros(padded(part as nat, 6))
    }
}

/// A number as an operand: its text and a space.
pub open spec fn operand(v: i64) -> Seq<u8> {
    number_text(v).push(32)
}

/// The name under which the reusable resource with a number is known.
pub open spec fn resource_name_text(n: u32) -> Seq<u8> {
    RESOURCE_STEM@ + digits(n as nat)
}

/// The name under which the shared graphics state with a number is known.
pub open spec fn state_name_text(n: u32) -> Seq<u8> {
    STATE_STEM@ + digits(n as nat)
}

/// One operation as text: its operands, each followed by a space, and its
/// operator.
pub open spec fn op_text(op: Op) -> Seq<u8> {
    match op {
        Op::SaveState => seq![113u8],
        Op::RestoreState => seq![81u8],
        Op::SetTransparency(n) => seq![47u8] + state_name_text(n) + seq![32u8, 103, 115],
        Op::SetFillColor { red, green, blue } => operand(red) + operand(green) + operand(blue)
            + seq![114u8, 103],
        Op::MoveTo { x, y } => operand(x) + operand(y) + seq![109u8],
        Op::LineTo { x, y } => operand(x) + operand(y) + seq![108u8],
        Op::CurveTo { x1, y1, x2, y2, x, y } => operand(x1) + operand(y1) + operand(x2) + operand(
            y2,
        ) + operand(x) + operand(y) + seq![99u8],
        Op::ClosePath => seq![104u8],
        Op::PaintFill => seq![102u8],
        Op::SetTransform { a, b, c, d, e, f } => operand(a) + operand(b) + operand(c) + operand(d)
            + operand(e) + operand(f) + seq![99u8, 109],
        Op::DrawResource(n) => seq![47u8] + resource_name_text(n) + seq![32u8, 68, 111],
    }
}

/// The first `n` operations as text, each on a line of its own.
pub open spec fn content_text(ops: Seq<Op>, n: nat) -> Seq<u8>
    decreases n,
{
    if n == 0 {
        Seq::empty()
    } else {
        content_text(ops, (n - 1) as nat) + op_text(ops[n - 1]).push(10)
    }
}

/// Appends a run of bytes.
fn push_all(out: &mut Vec<u8>, bytes: &[u8])
    ensures
        final(out)@ == old(out)@ + bytes@,
{
    let ghost before = out@;
    let mut i: usize = 0;
    while i < bytes.len()
        invariant
            i <= bytes.len(),
            out@ == before + bytes@.subrange(0, i as int),
        decreases bytes.len() - i,
    {
        out.push(bytes[i]);
        i += 1;
        assert(out@ =~= before + bytes@.subrange(0, i as int));
    }
    assert(bytes@.subrange(0, bytes.len() as int) =~= bytes@);
}

/// Appends a natural number in decimal notation.
fn push_digits(out: &mut Vec<u8>, n: u64)
    ensures
        final(out)@ == old(out)@ + digits(n as nat),
    decreases n,
{
    if n >= 10 {
        push_digits(out, n / 10);
    }
    out.push(48 + (n % 10) as u8);
}

/// Appends the last `width` decimal digits of a number.
fn push_padded(out: &mut Vec<u8>, n: u64, width: u8)
    ensures
        final(out)@ == old(out)@ + padded(n as nat, width as nat),
    decreases width,
{
    if width > 0 {
        push_padded(out, n / 10, width - 1);
        out.push(48 + (n % 10) as u8);
    }
}

/// Appends a fixed-point number in decimal notation.
fn push_number(out: &mut Vec<u8>, v: i64)
    ensures
        final(out)@ == old(out)@ + number_text(v),
{
    let m: u64 = if v < 0 {
        (-(v as i128)) as u64
    } else {
        v as u64
    };
    if v < 0 {
        out.push(45);
    }
    push_digits(out, m / 1_000_000);
    let part: u64 = m % 1_000_000;
    if part != 0 {
        out.push(46);
        let mut rest: u64 = part;
        let mut width: u8 = 6;
        while width > 0 && rest % 10 == 0
            invariant
                width <= 6,
                strip_zeros(padded(part as nat, 6)) == strip_zeros(
                    padded(rest as nat, width as nat),
                ),
            decreases width,
        {
            proof {
                let s = padded(rest as nat, width as nat);
                assert(s.last() == 48);
                assert(s.drop_last() =~= padded((rest / 10) as nat, (width - 1) as nat));
            }
            rest = rest / 10;
            width = width - 1;
        }
        push_padded(out, rest, width);
    }
}

/// Appends a number as an operand.
fn push_operand(out: &mut Vec<u8>, v: i64)
    ensures
        final(out)@ == old(out)@ + operand(v),
{
    push_number(out, v);
    out.push(32);
}

/// The name under which the reusable resource with a number is entered in the
/// resources of a page, and by which a content stream draws it.
pub fn resource_name(n: u32) -> (name: Vec<u8>)
    ensures
        name@ == resource_name_text(n),
{
    let mut name: Vec<u8> = Vec::new();
    push_all(&mut name, RESOURCE_STEM.as_slice());
    push_digits(&mut name, n as u64);
    name
}

/// The name under which the shared graphics state with a number is known.
pub fn state_name(n: u32) -> (name: Vec<u8>)
    ensures
        name@ == state_name_text(n),
{
    let mut name: Vec<u8> = Vec::new();
    push_all(&mut name, STATE_STEM.as_slice());
    push_digits(&mut name, n as u64);
    name
}

/// Appends one operation as text.
fn push_op(out: &mut Vec<u8>, op: &Op)
    ensures
        final(out)@ == old(out)@ + op_text(*op),
{
    match op {
        Op::SaveState => {
            out.push(113);
        },
        Op::RestoreState => {
            out.push(81);
        },
        Op::SetTransparency(n) => {
            out.push(47);
            push_all(out, STATE_STEM.as_slice());
            push_digits(out, *n as u64);
            out.push(32);
            out.push(103);
            out.push(115);
        },
        Op::SetFillColor { red, green, blue } => {
            push_operand(out, *red);
            push_operand(out, *green);
            push_operand(out, *blue);
            out.push(114);
            out.push(103);
        },
        Op::MoveTo { x, y } => {
            push_operand(out, *x);
            push_operand(out, *y);
            out.push(109);
        },
        Op::LineTo { x, y } => {
            push_operand(out, *x);
            push_operand(out, *y);
            out.push(108);
        },
        Op::CurveTo { x1, y1, x2, y2, x, y } => {
            push_operand(out, *x1);
            push_operand(out, *y1);
            push_operand(out, *x2);
            push_operand(out, *y2);
            push_operand(out, *x);
            push_operand(out, *y);
            out.push(99);
        },
        Op::ClosePath => {
            out.push(104);
        },
        Op::PaintFill => {
            out.push(102);
        },
        Op::SetTransform { a, b, c, d, e, f } => {
            push_operand(out, *a);
            push_operand(out, *b);
            push_operand(out, *c);
            push_operand(out, *d);
            push_operand(out, *e);
            push_operand(out, *f);
            out.push(99);
            out.push(109);
        },
        Op::DrawResource(n) => {
            out.push(47);
            push_all(out, RESOURCE_STEM.as_slice());
            push_digits(out, *n as u64);
            out.push(32);
            out.push(68);
            out.push(111);
        },
    }
}

/// Writes a drawing program out as the text of a content stream.
pub fn render(ops: &Vec<Op>) -> (text: Vec<u8>)
    ensures
        text@ == content_text(ops@, ops@.len()),
{
    let mut text: Vec<u8> = Vec::new();
    let mut i: usize = 0;
    while i < ops.len()
        invariant
            i <= ops.len(),
            text@ == content_text(ops@, i as nat),
        decreases ops.len() - i,
    {
        push_op(&mut text, &ops[i]);
        text.push(10);
        i += 1;
    }
    text
}

/// Whether a character is a decimal digit.
pub open spec fn is_digit(b: u8) -> bool {
    48 <= b <= 57
}

/// Whether a text is made of decimal digits alone.
pub open spec fn all_digits(s: Seq<u8>) -> bool {
    forall|i: int| 0 <= i < s.len() ==> is_digit(#[trigger] s[i])
}

/// Ten to the power `k`.
pub open spec fn ten_to(k: nat) -> nat
    decreases k,
{
    if k == 0 {
        1
    } else {
        10 * ten_to((k - 1) as nat)
    }
}

/// The number that a run of digits stands for.
pub open spec fn digits_value(s: Seq<u8>) -> nat
    decreases s.len(),
{
    if s.len() == 0 {
        0
    } else {
        10 * digits_value(s.drop_last()) + (s.last() - 48) as nat
    }
}

/// Where the point stands in a text: the place of the first point, or the
/// length of the text where it has none.
pub open spec fn point_at(t: Seq<u8>) -> nat
    decreases t.len(),
{
    if t.len() == 0 || t[0] == 46 {
        0
    } else {
        1 + point_at(t.drop_first())
    }
}

/// The number in millionths that a text without a sign stands for: the
/// digits before the point count whole units, those after it, six at most,
/// tenths, hundredths and so on.
pub open spec fn unsigned_value(t: Seq<u8>) -> nat {
    let k = point_at(t) as int;
    let whole = digits_value(t.subrange(0, k));
    if k >= t.len() {
        whole * (SCALE as nat)
    } else {
        let part = t.subrange(k + 1, t.len() as int);
        whole * (SCALE as nat) + digits_value(part) * ten_to((6 - part.len()) as nat)
    }
}

/// The number in millionths that a text stands for.
pub open spec fn number_value(t: Seq<u8>) -> int {
    if t.len() > 0 && t[0] == 45 {
        -(unsigned_value(t.drop_first()) as int)
    } else {
        unsigned_value(t) as int
    }
}

/// A number in decimal notation is made of digits and stands for itself.
proof fn lemma_digits_read_back(n: nat)
    ensures
        digits(n).len() >= 1,
        all_digits(digits(n)),
        digits_value(digits(n)) == n,
    decreases n,
{
    if n >= 10 {
        lemma_digits_read_back(n / 10);
        let rest = digits(n / 10);
        let d = digit((n % 10) as int);
        assert(rest.push(d).drop_last() =~= rest);
    } else {
        let d = digit(n as int);
        let one = seq![d];
        assert(digits_value(one.drop_last()) == 0);
    }
}

/// The last `width` digits of a number are that many digits and stand for
/// the number modulo the power of ten.
proof fn lemma_padded_read_back(n: nat, width: nat)
    ensures
        padded(n, width).len() == width,
        all_digits(padded(n, width)),
        digits_value(padded(n, width)) == n % ten_to(width),
        ten_to(width) > 0,
    decreases width,
{
    if width > 0 {
        let m = ten_to((width - 1) as nat);
        lemma_padded_read_back(n / 10, (width - 1) as nat);
        let rest = padded(n / 10, (width - 1) as nat);
        let d = digit((n % 10) as int);
        assert(rest.push(d).drop_last() =~= rest);
        // n modulo ten times `m`, from n / 10 modulo `m` and the last digit
        let q = (n / 10) / m;
        let r = (n / 10) % m;
        lemma_fundamental_div_mod((n / 10) as int, m as int);
        lemma_mod_bound((n / 10) as int, m as int);
        assert(n as int == q * (10 * m) + (10 * r + n % 10)) by (nonlinear_arith)
            requires
                n as int == 10 * (n / 10) + n % 10,
                (n / 10) as int == m * q + r,
        ;
        lemma_fundamental_div_mod_converse(
            n as int,
            (10 * m) as int,
            q as int,
            (10 * r + n % 10) as int,
        );
    }
}

/// Zeros at the end of a run of digits only shift its value: the run stands
/// for what is left of it, times ten for every zero taken away.
proof fn lemma_strip_zeros_shifts(s: Seq<u8>)
    requires
        all_digits(s),
    ensures
        strip_zeros(s).len() <= s.len(),
        all_digits(strip_zeros(s)),
        digits_value(s) == digits_value(strip_zeros(s)) * ten_to(
            (s.len() - strip_zeros(s).len()) as nat,
        ),
    decreases s.len(),
{
    if s.len() > 0 && s.last() == 48 {
        let rest = s.drop_last();
        lemma_strip_zeros_shifts(rest);
        let kept = strip_zeros(rest);
        let k = (rest.len() - kept.len()) as nat;
        assert(digits_value(kept) * ten_to(k + 1) == 10 * (digits_value(kept) * ten_to(k)))
            by (nonlinear_arith)
            requires
                ten_to(k + 1) == 10 * ten_to(k),
        ;
    } else {
        assert(digits_value(s) * 1 == digits_value(s));
    }
}

/// The point of a text that starts with digits and then has a point stands
/// right after the digits; a text of digits alone has none.
proof fn lemma_point_after_digits(whole: Seq<u8>, rest: Seq<u8>)
    requires
        all_digits(whole),
        rest.len() == 0 || rest[0] == 46,
    ensures
        point_at(whole + rest) == whole.len(),
    decreases whole.len(),
{
    let t = whole + rest;
    if whole.len() > 0 {
        let tail = whole.drop_first();
        assert(t.drop_first() =~= tail + rest);
        lemma_point_after_digits(tail, rest);
    }
}

/// A text without sign, made up from a size in millionths, stands for that
/// size.
proof fn lemma_unsigned_read_back(m: nat)
    ensures
        ({
            let whole = digits(m / (SCALE as nat));
            let part = m % (SCALE as nat);
            let text = if part == 0 {
                whole
            } else {
                whole + seq![46u8] + strip_zeros(padded(part, 6))
            };
            unsigned_value(text) == m && text.len() > 0 && text[0] != 45
        }),
{
    let scale = SCALE as nat;
    let whole = digits(m / scale);
    let part = m % scale;
    lemma_digits_read_back(m / scale);
    lemma_fundamental_div_mod(m as int, scale as int);
    if part == 0 {
        lemma_point_after_digits(whole, Seq::<u8>::empty());
        assert(whole.subrange(0, whole.len() as int) =~= whole);
        assert((m / scale) * scale == m) by (nonlinear_arith)
            requires
                m as int == scale * (m / scale) + 0,
        ;
    } else {
        let six = padded(part, 6);
        lemma_padded_read_back(part, 6);
        lemma_strip_zeros_shifts(six);
        let kept = strip_zeros(six);
        let tail = seq![46u8] + kept;
        let text = whole + seq![46u8] + kept;
        assert(text =~= whole + tail);
        lemma_point_after_digits(whole, tail);
        assert(text.subrange(0, whole.len() as int) =~= whole);
        assert(text.subrange(whole.len() as int + 1, text.len() as int) =~= kept);
        reveal_with_fuel(ten_to, 7);
        lemma_small_mod(part, 1_000_000);
        assert((m / scale) * scale + part == m) by (nonlinear_arith)
            requires
                m as int == scale * (m / scale) + part,
        ;
    }
}

/// Nothing is lost in writing a number out: its text stands for the number.
pub proof fn lemma_number_read_back(v: i64)
    ensures
        number_value(number_text(v)) == v,
{
    let m: nat = if v < 0 {
        (-(v as int)) as nat
    } else {
        v as nat
    };
    lemma_unsigned_read_back(m);
    let whole = digits(m / (SCALE as nat));
    let part = m % (SCALE as nat);
    let body = if part == 0 {
        whole
    } else {
        whole + seq![46u8] + strip_zeros(padded(part, 6))
    };
    if v < 0 {
        let text = number_text(v);
        assert(text.drop_first() =~= body);
    }
}

} // verus!
