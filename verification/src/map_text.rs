//! The text form of a map. Every line that has four fields between tabs
//! names one shape:
//!
//! ```text
//! sphere<TAB>position 0 1.5 -2<TAB>scale 1 1 1<TAB>color 0.5 0 1
//! ```
//!
//! The first word of the first field is the kind. Each of the other fields
//! is a label followed by three numbers, all parted by single spaces. Lines
//! with another number of fields are passed over.

use vstd::prelude::*;
use crate::map::{loaded, MapEntry, ShapeKind};
use crate::sdf_controller::{SdfController, CAPACITY};
use crate::vector::{sat, Vec3};

verus! {

/// The most digits that a number may have on either side of its point.
pub const MAX_DIGITS: usize = 18;

/// The pieces of `s` between the occurrences of `sep`: one more than there
/// are separators, empty pieces included.
pub open spec fn split_spec(s: Seq<u8>, sep: u8) -> Seq<Seq<u8>>
    decreases s.len(),
{
    if s.len() == 0 {
        seq![Seq::<u8>::empty()]
    } else {
        let before = split_spec(s.drop_last(), sep);
        if s.last() == sep {
            before.push(Seq::<u8>::empty())
        } else {
            before.update(before.len() - 1, before.last().push(s.last()))
        }
    }
}

/// The contents of a vector of byte strings.
pub open spec fn contents(pieces: Seq<Vec<u8>>) -> Seq<Seq<u8>> {
    Seq::new(pieces.len(), |i: int| pieces[i]@)
}

pub open spec fn is_digit(b: u8) -> bool {
    48 <= b <= 57
}

pub open spec fn all_digits(s: Seq<u8>) -> bool {
    forall|i: int| 0 <= i < s.len() ==> is_digit(#[trigger] s[i])
}

/// The number that a string of decimal digits writes; the empty string
/// writes zero.
pub open spec fn digits_value(s: Seq<u8>) -> nat
    decreases s.len(),
{
    if s.len() == 0 {
        0
    } else {
        digits_value(s.drop_last()) * 10 + (s.last() - 48) as nat
    }
}

pub open spec fn pow10(k: nat) -> nat
    decreases k,
{
    if k == 0 {
        1
    } else {
        10 * pow10((k - 1) as nat)
    }
}

/// The raw fixed-point magnitude of `whole.fraction`, rounded toward zero.
pub open spec fn magnitude_of(whole: Seq<u8>, fraction: Seq<u8>) -> nat {
    digits_value(whole) * 65536 + digits_value(fraction) * 65536 / pow10(fraction.len())
}

/// The magnitude that an unsigned decimal writes: digits, with at most one
/// point among them, at least one digit in all and no more than `MAX_DIGITS`
/// on either side. Anything else is no number.
pub open spec fn unsigned_spec(body: Seq<u8>) -> Option<nat> {
    let parts = split_spec(body, 46);
    let whole = parts[0];
    let fraction = if parts.len() == 2 {
        parts[1]
    } else {
        Seq::<u8>::empty()
    };
    if parts.len() <= 2 && all_digits(whole) && all_digits(fraction) && whole.len()
        + fraction.len() >= 1 && whole.len() <= MAX_DIGITS && fraction.len() <= MAX_DIGITS {
        Some(magnitude_of(whole, fraction))
    } else {
        None
    }
}

/// Whether a token starts with a sign.
pub open spec fn has_sign(token: Seq<u8>) -> bool {
    token.len() > 0 && (token[0] == 45 || token[0] == 43)
}

/// The scalar that a token writes: an unsigned decimal, with `-` or `+` in
/// front if need be, saturated to what a scalar holds.
pub open spec fn number_spec(token: Seq<u8>) -> Option<i32> {
    let body = if has_sign(token) {
        token.skip(1)
    } else {
        token
    };
    match unsigned_spec(body) {
        Some(m) => Some(
            if has_sign(token) && token[0] == 45 {
                sat(-(m as int))
            } else {
                sat(m as int)
            },
        ),
        None => None,
    }
}

/// A string of `k` digits writes a number below ten to the `k`.
pub proof fn lemma_digits_bound(s: Seq<u8>)
    requires
        all_digits(s),
    ensures
        digits_value(s) < pow10(s.len()),
    decreases s.len(),
{
    if s.len() > 0 {
        assert(is_digit(s[s.len() - 1]));
        assert forall|i: int| 0 <= i < s.drop_last().len() implies is_digit(
            #[trigger] s.drop_last()[i],
        ) by {
            assert(is_digit(s[i]));
        }
        lemma_digits_bound(s.drop_last());
    }
}

/// Up to eighteen digits, ten to their number fits well into 64 bits.
pub proof fn lemma_pow10_bound(k: nat)
    requires
        k <= MAX_DIGITS,
    ensures
        1 <= pow10(k) <= 1_000_000_000_000_000_000,
    decreases MAX_DIGITS - k,
{
    if k == MAX_DIGITS {
        reveal_with_fuel(pow10, 19);
        assert(pow10(18) == 1_000_000_000_000_000_000);
    } else {
        lemma_pow10_bound(k + 1);
        assert(pow10(k + 1) == 10 * pow10(k));
    }
}

/// Cuts `s` at every `sep`.
pub fn split(s: &Vec<u8>, sep: u8) -> (pieces: Vec<Vec<u8>>)
    ensures
        contents(pieces@) == split_spec(s@, sep),
        pieces@.len() >= 1,
{
    let mut pieces: Vec<Vec<u8>> = Vec::new();
    let mut current: Vec<u8> = Vec::new();
    let mut i: usize = 0;
    proof {
        assert(s@.take(0) =~= Seq::<u8>::empty());
        assert(contents(pieces@).push(current@) =~= seq![Seq::<u8>::empty()]);
    }
    while i < s.len()
        invariant
            i <= s.len(),
            contents(pieces@).push(current@) == split_spec(s@.take(i as int), sep),
        decreases s.len() - i,
    {
        let b = s[i];
        let ghost before = split_spec(s@.take(i as int), sep);
        let ghost done = contents(pieces@);
        let ghost open = current@;
        proof {
            assert(s@.take(i + 1).drop_last() =~= s@.take(i as int));
            assert(s@.take(i + 1).last() == b);
            assert(before.len() == done.len() + 1);
            assert(before.last() == open);
        }
        if b == sep {
            pieces.push(current);
            current = Vec::new();
            proof {
                assert(contents(pieces@) =~= done.push(open));
                assert(contents(pieces@).push(current@) =~= before.push(Seq::<u8>::empty()));
            }
        } else {
            current.push(b);
            proof {
                assert(contents(pieces@).push(current@) =~= before.update(
                    before.len() - 1,
                    open.push(b),
                ));
            }
        }
        i = i + 1;
    }
    proof {
        assert(s@.take(s@.len() as int) =~= s@);
    }
    let ghost done = contents(pieces@);
    pieces.push(current);
    proof {
        assert(contents(pieces@) =~= done.push(current@));
    }
    pieces
}

/// Reads a string of at most `MAX_DIGITS` decimal digits.
fn read_digits(s: &Vec<u8>) -> (r: Option<u64>)
    ensures
        r is Some <==> all_digits(s@) && s@.len() <= MAX_DIGITS,
        r is Some ==> r->Some_0 == digits_value(s@),
{
    if s.len() > MAX_DIGITS {
        return None;
    }
    let mut value: u64 = 0;
    let mut i: usize = 0;
    proof {
        assert(s@.take(0) =~= Seq::<u8>::empty());
    }
    while i < s.len()
        invariant
            i <= s.len() <= MAX_DIGITS,
            all_digits(s@.take(i as int)),
            value == digits_value(s@.take(i as int)),
        decreases s.len() - i,
    {
        let b = s[i];
        if b < 48 || b > 57 {
            proof {
                assert(!is_digit(s@[i as int]));
            }
            return None;
        }
        proof {
            lemma_digits_bound(s@.take(i as int));
            lemma_pow10_bound(i as nat);
            assert(s@.take(i + 1).drop_last() =~= s@.take(i as int));
            assert(s@.take(i + 1).last() == b);
            assert forall|j: int| 0 <= j < i + 1 implies is_digit(
                #[trigger] s@.take(i + 1)[j],
            ) by {
                if j < i {
                    assert(is_digit(s@.take(i as int)[j]));
                }
            }
        }
        value = value * 10 + (b - 48) as u64;
        i = i + 1;
    }
    proof {
        assert(s@.take(s@.len() as int) =~= s@);
    }
    Some(value)
}

/// Ten to the `k`.
fn power_of_ten(k: usize) -> (r: u64)
    requires
        k <= MAX_DIGITS,
    ensures
        r == pow10(k as nat),
{
    let mut r: u64 = 1;
    let mut i: usize = 0;
    while i < k
        invariant
            i <= k <= MAX_DIGITS,
            r == pow10(i as nat),
        decreases k - i,
    {
        proof {
            lemma_pow10_bound((i + 1) as nat);
        }
        r = r * 10;
        i = i + 1;
    }
    r
}

/// The bytes of `s` from `from` on.
fn tail(s: &Vec<u8>, from: usize) -> (r: Vec<u8>)
    requires
        from <= s@.len(),
    ensures
        r@ == s@.skip(from as int),
{
    let mut r: Vec<u8> = Vec::new();
    let mut i: usize = from;
    while i < s.len()
        invariant
            from <= i <= s.len(),
            r@ == s@.subrange(from as int, i as int),
        decreases s.len() - i,
    {
        r.push(s[i]);
        proof {
            assert(r@ =~= s@.subrange(from as int, i + 1));
        }
        i = i + 1;
    }
    proof {
        assert(s@.subrange(from as int, s@.len() as int) =~= s@.skip(from as int));
    }
    r
}

/// Reads an unsigned decimal as a raw magnitude.
fn parse_unsigned(body: &Vec<u8>) -> (r: Option<u128>)
    ensures
        match r {
            Some(m) => unsigned_spec(body@) == Some(m as nat),
            None => unsigned_spec(body@) is None,
        },
{
    let parts = split(body, 46);
    if parts.len() > 2 {
        return None;
    }
    assert(contents(parts@)[0] == parts@[0]@);
    let whole = match read_digits(&parts[0]) {
        Some(v) => v,
        None => {
            return None;
        },
    };
    let empty: Vec<u8> = Vec::new();
    let fraction_digits: &Vec<u8> = if parts.len() == 2 {
        assert(contents(parts@)[1] == parts@[1]@);
        &parts[1]
    } else {
        &empty
    };
    let fraction = match read_digits(fraction_digits) {
        Some(v) => v,
        None => {
            return None;
        },
    };
    if parts[0].len() + fraction_digits.len() < 1 {
        return None;
    }
    let scale = power_of_ten(fraction_digits.len());
    proof {
        lemma_pow10_bound(fraction_digits@.len());
        lemma_digits_bound(parts@[0]@);
        lemma_pow10_bound(parts@[0]@.len());
        lemma_digits_bound(fraction_digits@);
    }
    Some((whole as u128) * 65536 + (fraction as u128) * 65536 / (scale as u128))
}

/// Reads a number as a scalar.
pub fn parse_number(token: &Vec<u8>) -> (r: Option<i32>)
    ensures
        r == number_spec(token@),
{
    let signed = token.len() > 0 && (token[0] == 45 || token[0] == 43);
    let negative = signed && token[0] == 45;
    let parsed = if signed {
        let body = tail(token, 1);
        parse_unsigned(&body)
    } else {
        parse_unsigned(token)
    };
    match parsed {
        Some(m) => {
            let limit: u128 = 2147483648;
            if negative {
                if m >= limit {
                    Some(i32::MIN)
                } else {
                    Some(-(m as i64) as i32)
                }
            } else {
                if m >= limit {
                    Some(i32::MAX)
                } else {
                    Some(m as i32)
                }
            }
        },
        None => None,
    }
}

/// What one line of a map says.
#[derive(Clone, Copy, Debug, PartialEq, Eq, Structural)]
pub enum MapLine {
    /// The line does not have four fields: it names no shape.
    Skipped,
    /// The line names a shape.
    Entry(MapEntry),
    /// The line has four fields, but one of them lacks a number.
    Malformed,
}

/// A map text that cannot be read.
#[derive(Clone, Copy, Debug, PartialEq, Eq, Structural)]
pub struct MapError {
    /// The index of the first malformed line, counted from zero.
    pub line: usize,
}

/// The word `sphere`.
pub open spec fn sphere_word() -> Seq<u8> {
    seq![115u8, 112u8, 104u8, 101u8, 114u8, 101u8]
}

/// The word `cube`.
pub open spec fn cube_word() -> Seq<u8> {
    seq![99u8, 117u8, 98u8, 101u8]
}

/// The kind that a word names; an unknown word names the implicit kind.
pub open spec fn kind_spec(word: Seq<u8>) -> ShapeKind {
    if word == sphere_word() {
        ShapeKind::Sphere
    } else if word == cube_word() {
        ShapeKind::Cube
    } else {
        ShapeKind::Implicit
    }
}

/// The vector that a field writes: its second, third and fourth word as
/// numbers. The first word is a label and further words are not read.
pub open spec fn vector_spec(field: Seq<u8>) -> Option<Vec3> {
    let words = split_spec(field, 32);
    if words.len() < 4 {
        None
    } else {
        match (number_spec(words[1]), number_spec(words[2]), number_spec(words[3])) {
            (Some(x), Some(y), Some(z)) => Some(Vec3 { x, y, z }),
            _ => None,
        }
    }
}

/// What a line says.
pub open spec fn line_spec(line: Seq<u8>) -> MapLine {
    let fields = split_spec(line, 9);
    if fields.len() != 4 {
        MapLine::Skipped
    } else {
        match (vector_spec(fields[1]), vector_spec(fields[2]), vector_spec(fields[3])) {
            (Some(position), Some(scale), Some(color)) => MapLine::Entry(
                MapEntry {
                    kind: kind_spec(split_spec(fields[0], 32)[0]),
                    position,
                    scale,
                    color,
                },
            ),
            _ => MapLine::Malformed,
        }
    }
}

/// The entries of the first `n` lines, in order.
pub open spec fn entries_spec(lines: Seq<Seq<u8>>, n: nat) -> Seq<MapEntry>
    decreases n,
{
    if n == 0 {
        Seq::empty()
    } else {
        let before = entries_spec(lines, (n - 1) as nat);
        match line_spec(lines[n - 1]) {
            MapLine::Entry(e) => before.push(e),
            _ => before,
        }
    }
}

/// Whether `k` is the first malformed line.
pub open spec fn first_malformed(lines: Seq<Seq<u8>>, k: int) -> bool {
    &&& 0 <= k < lines.len()
    &&& line_spec(lines[k]) == MapLine::Malformed
    &&& forall|j: int| 0 <= j < k ==> line_spec(#[trigger] lines[j]) != MapLine::Malformed
}

/// What a whole text says: the entries of its lines, or the first line that
/// is malformed.
pub open spec fn map_spec(text: Seq<u8>) -> Result<Seq<MapEntry>, MapError> {
    let lines = split_spec(text, 10);
    if exists|k: int| first_malformed(lines, k) {
        Err(MapError { line: (choose|k: int| first_malformed(lines, k)) as usize })
    } else {
        Ok(entries_spec(lines, lines.len()))
    }
}

/// Whether two byte strings are the same.
fn same_bytes(a: &Vec<u8>, b: &Vec<u8>) -> (r: bool)
    ensures
        r == (a@ == b@),
{
    if a.len() != b.len() {
        return false;
    }
    let mut i: usize = 0;
    while i < a.len()
        invariant
            i <= a.len(),
            a.len() == b.len(),
            forall|j: int| 0 <= j < i ==> a@[j] == b@[j],
        decreases a.len() - i,
    {
        if a[i] != b[i] {
            return false;
        }
        i = i + 1;
    }
    proof {
        assert(a@ =~= b@);
    }
    true
}

/// Reads the kind that a word names.
pub fn parse_kind(word: &Vec<u8>) -> (r: ShapeKind)
    ensures
        r == kind_spec(word@),
{
    let mut sphere: Vec<u8> = Vec::new();
    sphere.push(115);
    sphere.push(112);
    sphere.push(104);
    sphere.push(101);
    sphere.push(114);
    sphere.push(101);
    let mut cube: Vec<u8> = Vec::new();
    cube.push(99);
    cube.push(117);
    cube.push(98);
    cube.push(101);
    proof {
        assert(sphere@ =~= sphere_word());
        assert(cube@ =~= cube_word());
    }
    if same_bytes(word, &sphere) {
        ShapeKind::Sphere
    } else if same_bytes(word, &cube) {
        ShapeKind::Cube
    } else {
        ShapeKind::Implicit
    }
}

/// Reads the vector of a field.
pub fn parse_vector(field: &Vec<u8>) -> (r: Option<Vec3>)
    ensures
        r == vector_spec(field@),
{
    let words = split(field, 32);
    if words.len() < 4 {
        return None;
    }
    proof {
        assert(contents(words@)[1] == words@[1]@);
        assert(contents(words@)[2] == words@[2]@);
        assert(contents(words@)[3] == words@[3]@);
    }
    let x = parse_number(&words[1]);
    let y = parse_number(&words[2]);
    let z = parse_number(&words[3]);
    match (x, y, z) {
        (Some(x), Some(y), Some(z)) => Some(Vec3 { x, y, z }),
        _ => None,
    }
}

/// Reads one line.
pub fn parse_line(line: &Vec<u8>) -> (r: MapLine)
    ensures
        r == line_spec(line@),
{
    let fields = split(line, 9);
    if fields.len() != 4 {
        return MapLine::Skipped;
    }
    proof {
        assert(contents(fields@)[0] == fields@[0]@);
        assert(contents(fields@)[1] == fields@[1]@);
        assert(contents(fields@)[2] == fields@[2]@);
        assert(contents(fields@)[3] == fields@[3]@);
    }
    let position = parse_vector(&fields[1]);
    let scale = parse_vector(&fields[2]);
    let color = parse_vector(&fields[3]);
    match (position, scale, color) {
        (Some(position), Some(scale), Some(color)) => {
            let words = split(&fields[0], 32);
            proof {
                assert(contents(words@)[0] == words@[0]@);
            }
            MapLine::Entry(MapEntry { kind: parse_kind(&words[0]), position, scale, color })
        },
        _ => MapLine::Malformed,
    }
}

/// Reads a whole map. The text is cut into lines at every line feed.
pub fn parse_map(text: &Vec<u8>) -> (r: Result<Vec<MapEntry>, MapError>)
    ensures
        match r {
            Ok(entries) => map_spec(text@) == Ok::<Seq<MapEntry>, MapError>(entries@),
            Err(e) => map_spec(text@) == Err::<Seq<MapEntry>, MapError>(e),
        },
{
    let lines = split(text, 10);
    let ghost all = split_spec(text@, 10);
    let mut entries: Vec<MapEntry> = Vec::new();
    let mut i: usize = 0;
    while i < lines.len()
        invariant
            i <= lines.len(),
            all == split_spec(text@, 10),
            contents(lines@) == all,
            entries@ == entries_spec(all, i as nat),
            forall|j: int| 0 <= j < i ==> line_spec(#[trigger] all[j]) != MapLine::Malformed,
        decreases lines.len() - i,
    {
        proof {
            assert(contents(lines@)[i as int] == lines@[i as int]@);
        }
        match parse_line(&lines[i]) {
            MapLine::Entry(e) => {
                entries.push(e);
            },
            MapLine::Skipped => {},
            MapLine::Malformed => {
                proof {
                    assert(first_malformed(all, i as int));
                    let k = choose|k: int| first_malformed(all, k);
                    if k < i {
                        assert(line_spec(all[k]) != MapLine::Malformed);
                    } else if i < k {
                        assert(line_spec(all[i as int]) != MapLine::Malformed);
                    }
                }
                return Err(MapError { line: i });
            },
        }
        i = i + 1;
    }
    proof {
        if exists|k: int| first_malformed(all, k) {
            let k = choose|k: int| first_malformed(all, k);
            assert(line_spec(all[k]) != MapLine::Malformed);
        }
    }
    Ok(entries)
}

impl SdfController {
    /// Replaces whatever the registry holds by the shapes of a map text, and
    /// returns how many were loaded. A text with a malformed line loads
    /// nothing and leaves the registry as it is.
    pub fn load_map_text(&mut self, text: &Vec<u8>) -> (r: Result<usize, MapError>)
        ensures
            match r {
                Ok(count) => {
                    &&& map_spec(text@) is Ok
                    &&& final(self).wf()
                    &&& final(self)@ == loaded(map_spec(text@)->Ok_0)
                    &&& count == if map_spec(text@)->Ok_0.len() < CAPACITY {
                        map_spec(text@)->Ok_0.len()
                    } else {
                        CAPACITY as nat
                    }
                    &&& final(self).blend_spec() == old(self).blend_spec()
                    &&& final(self).hue_spec() == old(self).hue_spec()
                    &&& final(self).origin_spec() == old(self).origin_spec()
                },
                Err(e) => map_spec(text@) == Err::<Seq<MapEntry>, MapError>(e) && *final(self)
                    == *old(self),
            },
    {
        match parse_map(text) {
            Ok(entries) => Ok(self.load_map(&entries)),
            Err(e) => Err(e),
        }
    }
}

} // verus!
