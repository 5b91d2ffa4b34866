//! Writing a map as text, such that reading the text gives the map back.

use vstd::prelude::*;
use crate::map::{exported, MapEntry, ShapeKind};
use crate::sdf_controller::{SdfController, CAPACITY};
use crate::map_text::{
    all_digits, cube_word, digits_value, entries_spec, first_malformed, has_sign, is_digit,
    kind_spec, line_spec, magnitude_of, map_spec, number_spec, pow10, sphere_word, split_spec,
    unsigned_spec, vector_spec, MapError, MapLine,
};
use crate::vector::Vec3;

verus! {

/// How many digits behind the point write every scalar exactly. Zeros at the
/// end are left out, but for one digit that always stands there.
pub const FRACTION_DIGITS: usize = 16;

/// The character of a digit.
pub open spec fn digit(d: int) -> u8 {
    (48 + d) as u8
}

/// The decimal digits of `n`, without leading zeros.
pub open spec fn digits_of(n: nat) -> Seq<u8>
    decreases n,
{
    if n < 10 {
        seq![digit(n as int)]
    } else {
        digits_of(n / 10).push(digit((n % 10) as int))
    }
}

/// The last `k` decimal digits of `n`, with leading zeros.
pub open spec fn padded_digits(n: nat, k: nat) -> Seq<u8>
    decreases k,
{
    if k == 0 {
        Seq::empty()
    } else {
        padded_digits(n / 10, (k - 1) as nat).push(digit((n % 10) as int))
    }
}

/// The magnitude of a scalar in raw units.
pub open spec fn raw_magnitude(x: i32) -> nat {
    if x < 0 {
        (-x) as nat
    } else {
        x as nat
    }
}

/// A string of digits without the zeros at its end; one digit always stays.
pub open spec fn trimmed(s: Seq<u8>) -> Seq<u8>
    decreases s.len(),
{
    if s.len() > 1 && s.last() == 48 {
        trimmed(s.drop_last())
    } else {
        s
    }
}

/// The digits behind the point of a scalar with the raw fraction `frac`:
/// `frac / 65536`, which is `frac * 152587890625` in units of ten to the
/// minus sixteen, without the zeros at the end.
pub open spec fn fraction_digits(frac: nat) -> Seq<u8> {
    trimmed(padded_digits(frac * 152587890625, FRACTION_DIGITS as nat))
}

/// A scalar without its sign: the whole part, a point, and the digits behind
/// it.
pub open spec fn unsigned_text(m: nat) -> Seq<u8> {
    digits_of(m / 65536).push(46) + fraction_digits(m % 65536)
}

/// A scalar as text.
pub open spec fn number_text(x: i32) -> Seq<u8> {
    if x < 0 {
        seq![45u8] + unsigned_text(raw_magnitude(x))
    } else {
        unsigned_text(raw_magnitude(x))
    }
}

/// Whether no byte of `s` parts words, fields or lines.
pub open spec fn is_word(s: Seq<u8>) -> bool {
    forall|i: int| 0 <= i < s.len() ==> (#[trigger] s[i]) != 32 && s[i] != 9 && s[i] != 10
}

/// The digits of a number are digits, and they write that number.
pub proof fn lemma_digits_of(n: nat)
    ensures
        all_digits(digits_of(n)),
        digits_value(digits_of(n)) == n,
        digits_of(n).len() >= 1,
        n < 100000 ==> digits_of(n).len() <= 5,
    decreases n,
{
    if n >= 10 {
        lemma_digits_of(n / 10);
        let front = digits_of(n / 10);
        let s = digits_of(n);
        assert(s.drop_last() =~= front);
        assert forall|i: int| 0 <= i < s.len() implies is_digit(#[trigger] s[i]) by {
            if i < front.len() {
                assert(is_digit(front[i]));
            }
        }
        if n < 100000 {
            lemma_digits_of_short(n);
        }
    } else {
        let s = digits_of(n);
        assert(s.drop_last() =~= Seq::<u8>::empty());
        assert(digits_value(s.drop_last()) == 0);
    }
}

/// A number below a hundred thousand has at most five digits.
proof fn lemma_digits_of_short(n: nat)
    requires
        n < 100000,
    ensures
        digits_of(n).len() <= 5,
{
    reveal_with_fuel(digits_of, 6);
}

/// Padded digits are digits, as many as asked for, and they write the number
/// if it is small enough for them.
pub proof fn lemma_padded_digits(n: nat, k: nat)
    requires
        n < pow10(k),
    ensures
        all_digits(padded_digits(n, k)),
        padded_digits(n, k).len() == k,
        digits_value(padded_digits(n, k)) == n,
    decreases k,
{
    if k > 0 {
        assert(pow10(k) == 10 * pow10((k - 1) as nat));
        lemma_padded_digits(n / 10, (k - 1) as nat);
        let front = padded_digits(n / 10, (k - 1) as nat);
        let s = padded_digits(n, k);
        assert(s.drop_last() =~= front);
        assert forall|i: int| 0 <= i < s.len() implies is_digit(#[trigger] s[i]) by {
            if i < front.len() {
                assert(is_digit(front[i]));
            }
        }
    }
}

/// A text without the separator is one piece.
pub proof fn lemma_split_none(s: Seq<u8>, sep: u8)
    requires
        forall|i: int| 0 <= i < s.len() ==> (#[trigger] s[i]) != sep,
    ensures
        split_spec(s, sep) == seq![s],
    decreases s.len(),
{
    if s.len() > 0 {
        lemma_split_none(s.drop_last(), sep);
        assert(s.last() != sep);
        assert(s.drop_last().push(s.last()) =~= s);
        assert(split_spec(s, sep) =~= seq![s]);
    } else {
        assert(s =~= Seq::<u8>::empty());
    }
}

/// Every text has at least one piece.
pub proof fn lemma_split_some(s: Seq<u8>, sep: u8)
    ensures
        split_spec(s, sep).len() >= 1,
    decreases s.len(),
{
    if s.len() > 0 {
        lemma_split_some(s.drop_last(), sep);
    }
}

/// The pieces of two texts joined by the separator are the pieces of the
/// first followed by the pieces of the second.
pub proof fn lemma_split_join(a: Seq<u8>, b: Seq<u8>, sep: u8)
    ensures
        split_spec(a.push(sep) + b, sep) == split_spec(a, sep) + split_spec(b, sep),
    decreases b.len(),
{
    let s = a.push(sep) + b;
    if b.len() == 0 {
        assert(s =~= a.push(sep));
        assert(s.drop_last() =~= a);
        assert(split_spec(s, sep) =~= split_spec(a, sep) + split_spec(b, sep));
    } else {
        lemma_split_join(a, b.drop_last(), sep);
        lemma_split_some(b.drop_last(), sep);
        assert(s.drop_last() =~= a.push(sep) + b.drop_last());
        assert(s.last() == b.last());
        assert(split_spec(s, sep) =~= split_spec(a, sep) + split_spec(b, sep));
    }
}

/// The text of a scalar is one word that starts with a sign exactly when the
/// scalar is negative.
pub proof fn lemma_number_text_shape(x: i32)
    ensures
        is_word(number_text(x)),
        number_text(x).len() >= 1,
        has_sign(number_text(x)) <==> x < 0,
        x < 0 ==> number_text(x)[0] == 45 && number_text(x).skip(1) == unsigned_text(
            raw_magnitude(x),
        ),
{
    let m = raw_magnitude(x);
    let whole = digits_of(m / 65536);
    let frac = fraction_digits(m % 65536);
    lemma_digits_of(m / 65536);
    lemma_fraction_digits(m % 65536);
    let body = unsigned_text(m);
    assert forall|i: int| 0 <= i < body.len() implies (#[trigger] body[i]) != 32 && body[i] != 9
        && body[i] != 10 && body[i] != 45 && body[i] != 43 by {
        if i < whole.len() {
            assert(is_digit(whole[i]));
        } else if i > whole.len() {
            assert(is_digit(frac[i - whole.len() - 1]));
        }
    }
    assert(body[0] == whole[0]);
    if x < 0 {
        assert(number_text(x).skip(1) =~= body);
        assert forall|i: int| 0 <= i < number_text(x).len() implies (#[trigger] number_text(
            x,
        )[i]) != 32 && number_text(x)[i] != 9 && number_text(x)[i] != 10 by {
            if i > 0 {
                assert(number_text(x)[i] == body[i - 1]);
            }
        }
    }
}

/// Ten to a sum is the product of the powers.
pub proof fn lemma_pow10_sum(a: nat, b: nat)
    ensures
        pow10(a + b) == pow10(a) * pow10(b),
        pow10(a) >= 1,
    decreases a,
{
    if a > 0 {
        lemma_pow10_sum((a - 1) as nat, b);
        assert(pow10(a + b) == 10 * pow10((a - 1 + b) as nat));
        assert(10 * (pow10((a - 1) as nat) * pow10(b)) == (10 * pow10((a - 1) as nat)) * pow10(b))
            by (nonlinear_arith);
    } else {
        assert(pow10(0) * pow10(b) == pow10(b)) by (nonlinear_arith)
            requires
                pow10(0) == 1,
        ;
    }
}

/// Leaving out the zeros at the end of a string of digits divides what it
/// writes by ten for every zero left out.
pub proof fn lemma_trimmed(s: Seq<u8>)
    requires
        all_digits(s),
        s.len() >= 1,
    ensures
        all_digits(trimmed(s)),
        1 <= trimmed(s).len() <= s.len(),
        digits_value(s) == digits_value(trimmed(s)) * pow10((s.len() - trimmed(s).len()) as nat),
    decreases s.len(),
{
    if s.len() > 1 && s.last() == 48 {
        let front = s.drop_last();
        assert forall|i: int| 0 <= i < front.len() implies is_digit(#[trigger] front[i]) by {
            assert(is_digit(s[i]));
        }
        lemma_trimmed(front);
        let t = trimmed(front);
        let k = (front.len() - t.len()) as nat;
        assert(pow10(k + 1) == 10 * pow10(k));
        assert((digits_value(t) * pow10(k)) * 10 == digits_value(t) * (10 * pow10(k)))
            by (nonlinear_arith);
    } else {
        assert(pow10(0) == 1);
        assert(digits_value(s) * 1 == digits_value(s));
    }
}

/// The digits behind the point are at most sixteen digits, and read behind a
/// point they give the fraction back.
pub proof fn lemma_fraction_digits(frac: nat)
    requires
        frac < 65536,
    ensures
        all_digits(fraction_digits(frac)),
        1 <= fraction_digits(frac).len() <= FRACTION_DIGITS,
        digits_value(fraction_digits(frac)) * 65536 / pow10(fraction_digits(frac).len())
            == frac,
{
    reveal_with_fuel(pow10, 17);
    assert(pow10(16) == 10_000_000_000_000_000);
    let full = padded_digits(frac * 152587890625, 16);
    lemma_padded_digits(frac * 152587890625, 16);
    lemma_trimmed(full);
    let t = trimmed(full);
    let k = t.len();
    let rest = (16 - k) as nat;
    lemma_pow10_sum(k, rest);
    lemma_pow10_sum(rest, 0);
    let d = digits_value(t);
    let p = pow10(k);
    let q = pow10(rest);
    assert(d * q == frac * 152587890625);
    assert(p * q == 10_000_000_000_000_000);
    assert(d * 65536 == frac * p) by (nonlinear_arith)
        requires
            d * q == frac * 152587890625,
            p * q == 10_000_000_000_000_000,
            q >= 1,
    ;
    assert((frac * p) / p == frac) by (nonlinear_arith)
        requires
            p >= 1,
    ;
}

/// Reading the text of a magnitude gives the magnitude back.
pub proof fn lemma_unsigned_round_trip(m: nat)
    requires
        m <= 0x8000_0000,
    ensures
        unsigned_spec(unsigned_text(m)) == Some(m),
{
    let whole = digits_of(m / 65536);
    let frac = fraction_digits(m % 65536);
    let text = unsigned_text(m);
    lemma_digits_of(m / 65536);
    lemma_fraction_digits(m % 65536);
    assert forall|i: int| 0 <= i < whole.len() implies (#[trigger] whole[i]) != 46 by {
        assert(is_digit(whole[i]));
    }
    assert forall|i: int| 0 <= i < frac.len() implies (#[trigger] frac[i]) != 46 by {
        assert(is_digit(frac[i]));
    }
    lemma_split_join(whole, frac, 46);
    lemma_split_none(whole, 46);
    lemma_split_none(frac, 46);
    let parts = split_spec(text, 46);
    assert(parts =~= seq![whole, frac]);
    assert(parts[0] == whole);
    assert(parts[1] == frac);
    assert(magnitude_of(whole, frac) == m);
}

/// Reading the text of a scalar gives the scalar back.
pub proof fn lemma_number_round_trip(x: i32)
    ensures
        number_spec(number_text(x)) == Some(x),
{
    lemma_number_text_shape(x);
    lemma_unsigned_round_trip(raw_magnitude(x));
}

/// The word `none`, for a shape without a named kind.
pub open spec fn none_word() -> Seq<u8> {
    seq![110u8, 111u8, 110u8, 101u8]
}

/// The label `position`.
pub open spec fn position_label() -> Seq<u8> {
    seq![112u8, 111u8, 115u8, 105u8, 116u8, 105u8, 111u8, 110u8]
}

/// The label `scale`.
pub open spec fn scale_label() -> Seq<u8> {
    seq![115u8, 99u8, 97u8, 108u8, 101u8]
}

/// The label `color`.
pub open spec fn color_label() -> Seq<u8> {
    seq![99u8, 111u8, 108u8, 111u8, 114u8]
}

/// The word that names a kind.
pub open spec fn kind_word(kind: ShapeKind) -> Seq<u8> {
    match kind {
        ShapeKind::Sphere => sphere_word(),
        ShapeKind::Cube => cube_word(),
        ShapeKind::Implicit => none_word(),
    }
}

/// Four texts joined by a separator.
pub open spec fn joined(a: Seq<u8>, b: Seq<u8>, c: Seq<u8>, d: Seq<u8>, sep: u8) -> Seq<u8> {
    a.push(sep) + (b.push(sep) + (c.push(sep) + d))
}

/// A field: the label and the three numbers of the vector.
#[verifier::opaque]
pub open spec fn field_text(label: Seq<u8>, v: Vec3) -> Seq<u8> {
    joined(label, number_text(v.x), number_text(v.y), number_text(v.z), 32)
}

/// The line of an entry.
pub open spec fn entry_text(e: MapEntry) -> Seq<u8> {
    joined(
        kind_word(e.kind),
        field_text(position_label(), e.position),
        field_text(scale_label(), e.scale),
        field_text(color_label(), e.color),
        9,
    )
}

/// The lines of the first `n` entries, each closed by a line feed.
pub open spec fn map_text(entries: Seq<MapEntry>, n: nat) -> Seq<u8>
    decreases n,
{
    if n == 0 {
        Seq::empty()
    } else {
        map_text(entries, (n - 1) as nat) + entry_text(entries[n - 1]).push(10)
    }
}

/// Whether no byte of `s` is `b`.
pub open spec fn lacks(s: Seq<u8>, b: u8) -> bool {
    forall|i: int| 0 <= i < s.len() ==> (#[trigger] s[i]) != b
}

/// Four texts without the separator, joined by it, split into the four.
pub proof fn lemma_split_joined(a: Seq<u8>, b: Seq<u8>, c: Seq<u8>, d: Seq<u8>, sep: u8)
    requires
        lacks(a, sep),
        lacks(b, sep),
        lacks(c, sep),
        lacks(d, sep),
    ensures
        split_spec(joined(a, b, c, d, sep), sep) == seq![a, b, c, d],
{
    lemma_split_none(a, sep);
    lemma_split_none(b, sep);
    lemma_split_none(c, sep);
    lemma_split_none(d, sep);
    lemma_split_join(c, d, sep);
    assert(split_spec(c.push(sep) + d, sep) =~= seq![c, d]);
    lemma_split_join(b, c.push(sep) + d, sep);
    assert(split_spec(b.push(sep) + (c.push(sep) + d), sep) =~= seq![b, c, d]);
    lemma_split_join(a, b.push(sep) + (c.push(sep) + d), sep);
    assert(split_spec(joined(a, b, c, d, sep), sep) =~= seq![a, b, c, d]);
}

/// What none of four texts holds, and is not the separator, their join does
/// not hold either.
pub proof fn lemma_joined_lacks(
    a: Seq<u8>,
    b: Seq<u8>,
    c: Seq<u8>,
    d: Seq<u8>,
    sep: u8,
    other: u8,
)
    requires
        lacks(a, other),
        lacks(b, other),
        lacks(c, other),
        lacks(d, other),
        sep != other,
    ensures
        lacks(joined(a, b, c, d, sep), other),
{
    let t = joined(a, b, c, d, sep);
    assert forall|i: int| 0 <= i < t.len() implies (#[trigger] t[i]) != other by {
        let p = a.len() as int;
        let q = p + 1 + b.len();
        let r = q + 1 + c.len();
        if i < p {
            assert(t[i] == a[i]);
        } else if i == p {
            assert(t[i] == sep);
        } else if i < q {
            assert(t[i] == b[i - p - 1]);
        } else if i == q {
            assert(t[i] == sep);
        } else if i < r {
            assert(t[i] == c[i - q - 1]);
        } else if i == r {
            assert(t[i] == sep);
        } else {
            assert(t[i] == d[i - r - 1]);
        }
    }
}

/// A word holds neither a space, nor a tab, nor a line feed.
pub proof fn lemma_word_lacks(s: Seq<u8>)
    requires
        is_word(s),
    ensures
        lacks(s, 32),
        lacks(s, 9),
        lacks(s, 10),
{
}

/// A field holds neither a tab nor a line feed.
pub proof fn lemma_field_lacks(label: Seq<u8>, v: Vec3)
    requires
        is_word(label),
    ensures
        lacks(field_text(label, v), 9),
        lacks(field_text(label, v), 10),
{
    reveal(field_text);
    let x = number_text(v.x);
    let y = number_text(v.y);
    let z = number_text(v.z);
    lemma_number_text_shape(v.x);
    lemma_number_text_shape(v.y);
    lemma_number_text_shape(v.z);
    lemma_word_lacks(label);
    lemma_word_lacks(x);
    lemma_word_lacks(y);
    lemma_word_lacks(z);
    lemma_joined_lacks(label, x, y, z, 32, 9);
    lemma_joined_lacks(label, x, y, z, 32, 10);
}

/// Reading a field gives its vector back.
pub proof fn lemma_field_round_trip(label: Seq<u8>, v: Vec3)
    requires
        is_word(label),
    ensures
        vector_spec(field_text(label, v)) == Some(v),
{
    reveal(field_text);
    let x = number_text(v.x);
    let y = number_text(v.y);
    let z = number_text(v.z);
    lemma_number_text_shape(v.x);
    lemma_number_text_shape(v.y);
    lemma_number_text_shape(v.z);
    lemma_number_round_trip(v.x);
    lemma_number_round_trip(v.y);
    lemma_number_round_trip(v.z);
    lemma_word_lacks(label);
    lemma_word_lacks(x);
    lemma_word_lacks(y);
    lemma_word_lacks(z);
    lemma_split_joined(label, x, y, z, 32);
    let words = split_spec(field_text(label, v), 32);
    assert(words[1] == x && words[2] == y && words[3] == z);
}

/// The word of a kind names that kind.
pub proof fn lemma_kind_round_trip(kind: ShapeKind)
    ensures
        is_word(kind_word(kind)),
        kind_spec(kind_word(kind)) == kind,
{
    assert(sphere_word().len() == 6 && cube_word().len() == 4 && none_word().len() == 4);
    assert(cube_word()[0] == 99 && none_word()[0] == 110);
}

/// The labels are words.
pub proof fn lemma_labels()
    ensures
        is_word(position_label()),
        is_word(scale_label()),
        is_word(color_label()),
{
}

/// The fields of the line of an entry.
pub proof fn lemma_entry_fields(e: MapEntry)
    ensures
        split_spec(entry_text(e), 9) == seq![
            kind_word(e.kind),
            field_text(position_label(), e.position),
            field_text(scale_label(), e.scale),
            field_text(color_label(), e.color),
        ],
        lacks(entry_text(e), 10),
{
    let k = kind_word(e.kind);
    let p = field_text(position_label(), e.position);
    let q = field_text(scale_label(), e.scale);
    let c = field_text(color_label(), e.color);
    lemma_labels();
    lemma_kind_round_trip(e.kind);
    lemma_word_lacks(k);
    lemma_field_lacks(position_label(), e.position);
    lemma_field_lacks(scale_label(), e.scale);
    lemma_field_lacks(color_label(), e.color);
    lemma_split_joined(k, p, q, c, 9);
    lemma_joined_lacks(k, p, q, c, 9, 10);
}

/// Reading the line of an entry gives the entry back, and the line holds no
/// line feed.
pub proof fn lemma_entry_round_trip(e: MapEntry)
    ensures
        line_spec(entry_text(e)) == MapLine::Entry(e),
        lacks(entry_text(e), 10),
{
    let k = kind_word(e.kind);
    lemma_entry_fields(e);
    lemma_labels();
    lemma_kind_round_trip(e.kind);
    lemma_word_lacks(k);
    lemma_field_round_trip(position_label(), e.position);
    lemma_field_round_trip(scale_label(), e.scale);
    lemma_field_round_trip(color_label(), e.color);
    lemma_split_none(k, 32);
    let fields = split_spec(entry_text(e), 9);
    assert(fields.len() == 4);
    assert(fields[0] == k);
    assert(fields[1] == field_text(position_label(), e.position));
    assert(fields[2] == field_text(scale_label(), e.scale));
    assert(fields[3] == field_text(color_label(), e.color));
    assert(split_spec(fields[0], 32)[0] == k);
}

/// The lines of the first `n` entries.
pub open spec fn written_lines(entries: Seq<MapEntry>, n: nat) -> Seq<Seq<u8>>
    decreases n,
{
    if n == 0 {
        Seq::empty()
    } else {
        written_lines(entries, (n - 1) as nat).push(entry_text(entries[n - 1]))
    }
}

/// The `i`-th written line is the line of the `i`-th entry.
pub proof fn lemma_written_line(entries: Seq<MapEntry>, n: nat, i: int)
    requires
        0 <= i < n,
    ensures
        written_lines(entries, n).len() == n,
        written_lines(entries, n)[i] == entry_text(entries[i]),
    decreases n,
{
    lemma_written_len(entries, n);
    lemma_written_len(entries, (n - 1) as nat);
    if i < n - 1 {
        lemma_written_line(entries, (n - 1) as nat, i);
    }
}

/// There are as many written lines as entries written.
pub proof fn lemma_written_len(entries: Seq<MapEntry>, n: nat)
    ensures
        written_lines(entries, n).len() == n,
    decreases n,
{
    if n > 0 {
        lemma_written_len(entries, (n - 1) as nat);
    }
}

/// A written map splits into the line of every entry, and an empty line
/// behind the last line feed.
pub proof fn lemma_map_text_lines(entries: Seq<MapEntry>, n: nat)
    ensures
        split_spec(map_text(entries, n), 10) == written_lines(entries, n).push(
            Seq::<u8>::empty(),
        ),
    decreases n,
{
    if n == 0 {
        assert(split_spec(map_text(entries, n), 10) =~= written_lines(entries, n).push(
            Seq::<u8>::empty(),
        ));
    } else {
        let m = (n - 1) as nat;
        let before = map_text(entries, m);
        let line = entry_text(entries[n - 1]);
        let earlier = written_lines(entries, m);
        lemma_map_text_lines(entries, m);
        lemma_entry_round_trip(entries[n - 1]);
        lemma_split_append(before, line, 10);
        let pieces = split_spec(before, 10);
        assert(pieces.drop_last() =~= earlier);
        assert(pieces.last() + line =~= line);
        assert(split_spec(before + line, 10) == earlier.push(line));
        lemma_split_join(before + line, Seq::<u8>::empty(), 10);
        assert(map_text(entries, n) =~= (before + line).push(10) + Seq::<u8>::empty());
        assert(split_spec(Seq::<u8>::empty(), 10) =~= seq![Seq::<u8>::empty()]);
        assert(earlier.push(line) + seq![Seq::<u8>::empty()] =~= earlier.push(line).push(
            Seq::<u8>::empty(),
        ));
    }
}

/// Appending a text without the separator to a text lengthens its last
/// piece.
pub proof fn lemma_split_append(a: Seq<u8>, b: Seq<u8>, sep: u8)
    requires
        forall|i: int| 0 <= i < b.len() ==> (#[trigger] b[i]) != sep,
    ensures
        split_spec(a + b, sep) == split_spec(a, sep).drop_last().push(
            split_spec(a, sep).last() + b,
        ),
    decreases b.len(),
{
    lemma_split_some(a, sep);
    let pieces = split_spec(a, sep);
    if b.len() == 0 {
        assert(a + b =~= a);
        assert(pieces.last() + b =~= pieces.last());
        assert(pieces.drop_last().push(pieces.last()) =~= pieces);
    } else {
        lemma_split_append(a, b.drop_last(), sep);
        assert((a + b).drop_last() =~= a + b.drop_last());
        assert((a + b).last() == b.last());
        assert(b[b.len() - 1] != sep);
        assert((pieces.last() + b.drop_last()).push(b.last()) =~= pieces.last() + b);
        assert(split_spec(a + b, sep) =~= pieces.drop_last().push(pieces.last() + b));
    }
}

/// The first `n` lines of a written map say the first `n` entries.
pub proof fn lemma_written_entries(entries: Seq<MapEntry>, lines: Seq<Seq<u8>>, n: nat)
    requires
        n <= entries.len(),
        lines == written_lines(entries, entries.len()).push(Seq::<u8>::empty()),
    ensures
        entries_spec(lines, n) == entries.take(n as int),
    decreases n,
{
    if n == 0 {
        assert(entries.take(0) =~= Seq::<MapEntry>::empty());
    } else {
        lemma_written_entries(entries, lines, (n - 1) as nat);
        lemma_entry_round_trip(entries[n - 1]);
        lemma_written_line(entries, entries.len(), n - 1);
        assert(lines[n - 1] == entry_text(entries[n - 1]));
        assert(entries.take(n as int) =~= entries.take(n - 1).push(entries[n - 1]));
    }
}

/// An empty line names no shape.
pub proof fn lemma_empty_line()
    ensures
        line_spec(Seq::<u8>::empty()) == MapLine::Skipped,
{
    assert(split_spec(Seq::<u8>::empty(), 9).len() == 1);
}

/// Reading a written map gives the map back.
pub proof fn lemma_map_text_round_trip(entries: Seq<MapEntry>)
    ensures
        map_spec(map_text(entries, entries.len())) == Ok::<Seq<MapEntry>, MapError>(entries),
{
    let n = entries.len();
    let text = map_text(entries, n);
    let lines = split_spec(text, 10);
    lemma_map_text_lines(entries, n);
    lemma_written_len(entries, n);
    lemma_empty_line();
    assert(lines.len() == n + 1);
    assert(lines[n as int] == Seq::<u8>::empty());
    assert forall|k: int| 0 <= k < lines.len() implies line_spec(#[trigger] lines[k])
        != MapLine::Malformed by {
        if k < n {
            lemma_written_line(entries, n, k);
            lemma_entry_round_trip(entries[k]);
        }
    }
    lemma_written_entries(entries, lines, n);
    assert(entries.take(n as int) =~= entries);
    assert(entries_spec(lines, n + 1) == entries_spec(lines, n));
    if exists|k: int| first_malformed(lines, k) {
        let k = choose|k: int| first_malformed(lines, k);
        assert(line_spec(lines[k]) != MapLine::Malformed);
    }
}

/// Appends the decimal digits of `n`.
fn push_digits(out: &mut Vec<u8>, n: u64)
    ensures
        final(out)@ == old(out)@ + digits_of(n as nat),
    decreases n,
{
    if n < 10 {
        out.push(48 + n as u8);
        proof {
            assert(out@ =~= old(out)@ + digits_of(n as nat));
        }
    } else {
        push_digits(out, n / 10);
        out.push(48 + (n % 10) as u8);
        proof {
            assert(out@ =~= old(out)@ + digits_of(n as nat));
        }
    }
}

/// Appends the last `k` decimal digits of `n`.
fn push_padded(out: &mut Vec<u8>, n: u64, k: usize)
    ensures
        final(out)@ == old(out)@ + padded_digits(n as nat, k as nat),
    decreases k,
{
    if k == 0 {
        proof {
            assert(out@ =~= old(out)@ + padded_digits(n as nat, k as nat));
        }
    } else {
        push_padded(out, n / 10, k - 1);
        out.push(48 + (n % 10) as u8);
        proof {
            assert(out@ =~= old(out)@ + padded_digits(n as nat, k as nat));
        }
    }
}

/// Appends the bytes of `word`.
fn push_all(out: &mut Vec<u8>, word: &Vec<u8>)
    ensures
        final(out)@ == old(out)@ + word@,
{
    let mut i: usize = 0;
    proof {
        assert(out@ =~= old(out)@ + word@.take(0));
    }
    while i < word.len()
        invariant
            i <= word.len(),
            out@ == old(out)@ + word@.take(i as int),
        decreases word.len() - i,
    {
        out.push(word[i]);
        proof {
            assert(out@ =~= old(out)@ + word@.take(i + 1));
        }
        i = i + 1;
    }
    proof {
        assert(word@.take(word@.len() as int) =~= word@);
    }
}

/// Takes the zeros off the end of a string of digits; one digit always
/// stays.
fn trim_zeros(digits: &mut Vec<u8>)
    ensures
        final(digits)@ == trimmed(old(digits)@),
{
    while digits.len() > 1 && digits[digits.len() - 1] == 48
        invariant
            trimmed(digits@) == trimmed(old(digits)@),
        decreases digits@.len(),
    {
        let ghost before = digits@;
        digits.pop();
        proof {
            assert(digits@ =~= before.drop_last());
        }
    }
}

/// Appends a scalar: its sign if it is negative, its whole part, a point, and
/// the digits behind it.
pub fn write_number(out: &mut Vec<u8>, x: i32)
    ensures
        final(out)@ == old(out)@ + number_text(x),
{
    let m: u64 = if x < 0 {
        out.push(45);
        (-(x as i64)) as u64
    } else {
        x as u64
    };
    let ghost signed = out@;
    push_digits(out, m / 65536);
    out.push(46);
    let mut fraction: Vec<u8> = Vec::new();
    push_padded(&mut fraction, (m % 65536) * 152587890625, FRACTION_DIGITS);
    proof {
        assert(fraction@ =~= padded_digits(((m % 65536) * 152587890625) as nat, 16));
    }
    trim_zeros(&mut fraction);
    push_all(out, &fraction);
    proof {
        assert(m == raw_magnitude(x));
        assert(out@ =~= signed + unsigned_text(m as nat));
        assert(out@ =~= old(out)@ + number_text(x));
    }
}

/// The text of a scalar.
pub fn format_number(x: i32) -> (r: Vec<u8>)
    ensures
        r@ == number_text(x),
        number_spec(r@) == Some(x),
{
    let mut out: Vec<u8> = Vec::new();
    write_number(&mut out, x);
    proof {
        assert(out@ =~= number_text(x));
        lemma_number_round_trip(x);
    }
    out
}

/// Appends a field.
fn write_field(out: &mut Vec<u8>, label: &Vec<u8>, v: Vec3)
    ensures
        final(out)@ == old(out)@ + field_text(label@, v),
{
    push_all(out, label);
    out.push(32);
    write_number(out, v.x);
    out.push(32);
    write_number(out, v.y);
    out.push(32);
    write_number(out, v.z);
    proof {
        reveal(field_text);
        assert(out@ =~= old(out)@ + field_text(label@, v));
    }
}

/// The word `position`.
fn position_bytes() -> (r: Vec<u8>)
    ensures
        r@ == position_label(),
{
    let mut r: Vec<u8> = Vec::new();
    r.push(112);
    r.push(111);
    r.push(115);
    r.push(105);
    r.push(116);
    r.push(105);
    r.push(111);
    r.push(110);
    proof {
        assert(r@ =~= position_label());
    }
    r
}

/// The word `scale`.
fn scale_bytes() -> (r: Vec<u8>)
    ensures
        r@ == scale_label(),
{
    let mut r: Vec<u8> = Vec::new();
    r.push(115);
    r.push(99);
    r.push(97);
    r.push(108);
    r.push(101);
    proof {
        assert(r@ =~= scale_label());
    }
    r
}

/// The word `color`.
fn color_bytes() -> (r: Vec<u8>)
    ensures
        r@ == color_label(),
{
    let mut r: Vec<u8> = Vec::new();
    r.push(99);
    r.push(111);
    r.push(108);
    r.push(111);
    r.push(114);
    proof {
        assert(r@ =~= color_label());
    }
    r
}

/// The word of a kind.
fn kind_bytes(kind: ShapeKind) -> (r: Vec<u8>)
    ensures
        r@ == kind_word(kind),
{
    let mut r: Vec<u8> = Vec::new();
    match kind {
        ShapeKind::Sphere => {
            r.push(115);
            r.push(112);
            r.push(104);
            r.push(101);
            r.push(114);
            r.push(101);
        },
        ShapeKind::Cube => {
            r.push(99);
            r.push(117);
            r.push(98);
            r.push(101);
        },
        ShapeKind::Implicit => {
            r.push(110);
            r.push(111);
            r.push(110);
            r.push(101);
        },
    }
    proof {
        assert(r@ =~= kind_word(kind));
    }
    r
}

/// Appends the line of an entry, without a line feed.
pub fn write_entry(out: &mut Vec<u8>, e: &MapEntry)
    ensures
        final(out)@ == old(out)@ + entry_text(*e),
{
    push_all(out, &kind_bytes(e.kind));
    out.push(9);
    write_field(out, &position_bytes(), e.position);
    out.push(9);
    write_field(out, &scale_bytes(), e.scale);
    out.push(9);
    write_field(out, &color_bytes(), e.color);
    proof {
        assert(out@ =~= old(out)@ + entry_text(*e));
    }
}

/// The text of a map: one line for every entry. Reading it gives the
/// entries back.
pub fn write_map(entries: &Vec<MapEntry>) -> (text: Vec<u8>)
    ensures
        text@ == map_text(entries@, entries@.len()),
        map_spec(text@) == Ok::<Seq<MapEntry>, MapError>(entries@),
{
    let mut text: Vec<u8> = Vec::new();
    let mut i: usize = 0;
    proof {
        assert(text@ =~= map_text(entries@, 0));
    }
    while i < entries.len()
        invariant
            i <= entries.len(),
            text@ == map_text(entries@, i as nat),
        decreases entries.len() - i,
    {
        let ghost before = text@;
        write_entry(&mut text, &entries[i]);
        text.push(10);
        proof {
            assert(text@ =~= before + entry_text(entries@[i as int]).push(10));
        }
        i = i + 1;
    }
    proof {
        lemma_map_text_round_trip(entries@);
    }
    text
}

impl SdfController {
    /// The registry as a map text: one line for every shape that a map
    /// lists, in address order.
    pub fn print_map(&self) -> (text: Vec<u8>)
        requires
            self.wf(),
        ensures
            text@ == map_text(
                exported(self@, CAPACITY as nat),
                exported(self@, CAPACITY as nat).len(),
            ),
            map_spec(text@) == Ok::<Seq<MapEntry>, MapError>(exported(self@, CAPACITY as nat)),
    {
        write_map(&self.map_entries())
    }
}

} // verus!
