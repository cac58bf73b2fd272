//! Triangle meshes in the Wavefront OBJ format.
//!
//! A file is read line by line. A line is cut into tokens at blanks. A line
//! whose first token is `v` gives a vertex, one whose first token is `f` a
//! face; every other line, and every line of fewer than two tokens, is
//! passed over.
use crate::math::{pow10, quotient, Scalar};
use crate::vec::{Point3, Vec3};
use vstd::prelude::*;
use vstd::string::StringExecFns;

verus! {

/// The kinds of polygon that a face can be.
#[derive(Clone, Copy, Debug, PartialEq, Eq)]
pub enum Polygon {
    Tri,
}

/// A model that was loaded.
pub trait Model {

}

/// A model in the OBJ format: vertices, and faces as lists of indices into
/// the vertices, counted from zero.
pub struct Obj {
    pub vertices: Vec<Point3>,
    pub indices: Vec<(Polygon, Vec<usize>)>,
}

impl Model for Obj {

}

/// What a model holds: its vertices, and the indices of every face.
pub struct ObjModel {
    pub vertices: Seq<Point3>,
    pub faces: Seq<Seq<usize>>,
}

impl Obj {
    /// Whether every face is a triangle of three vertices that there are.
    pub open spec fn well_formed(&self) -> bool {
        forall|i: int|
            0 <= i < self.indices.len() ==> {
                let face = (#[trigger] self.indices[i]).1;
                &&& face.len() == 3
                &&& face[0] < self.vertices.len()
                &&& face[1] < self.vertices.len()
                &&& face[2] < self.vertices.len()
            }
    }

    /// The vertices and the faces of the mesh as sequences.
    pub open spec fn model(&self) -> ObjModel {
        ObjModel {
            vertices: self.vertices@,
            faces: Seq::new(self.indices@.len(), |i: int| self.indices@[i].1@),
        }
    }
}

/// Why a file could not be loaded.
#[derive(Debug)]
pub enum LoaderError {
    /// A line of a vertex is wrong; the message says how.
    Vert(String),
    /// A line of a face is wrong; the message says how.
    Face(String),
    /// The file could not be read; the message says why.
    Io(String),
    /// The token is no number.
    ParseFloat(Vec<u8>),
    /// The token is no index.
    ParseInt(Vec<u8>),
}

/// What an error holds.
pub enum ErrorModel {
    Vert(Seq<char>),
    Face(Seq<char>),
    Io(Seq<char>),
    ParseFloat(Seq<u8>),
    ParseInt(Seq<u8>),
}

impl LoaderError {
    /// The error, with its text as a sequence.
    pub open spec fn model(&self) -> ErrorModel {
        match self {
            LoaderError::Vert(msg) => ErrorModel::Vert(msg@),
            LoaderError::Face(msg) => ErrorModel::Face(msg@),
            LoaderError::Io(msg) => ErrorModel::Io(msg@),
            LoaderError::ParseFloat(token) => ErrorModel::ParseFloat(token@),
            LoaderError::ParseInt(token) => ErrorModel::ParseInt(token@),
        }
    }

    /// What went wrong, in words.
    pub fn message(&self) -> (text: String)
        ensures
            text@ == match self {
                LoaderError::Vert(msg) => "Could not read vertex from file: "@ + msg@,
                LoaderError::Face(msg) => "Could not read face from file: "@ + msg@,
                LoaderError::Io(msg) => "Could not load file: "@ + msg@,
                LoaderError::ParseFloat(_) => "Could not parse float in file"@,
                LoaderError::ParseInt(_) => "Could not parse int in file"@,
            },
    {
        match self {
            LoaderError::Vert(msg) => String::from_str("Could not read vertex from file: ").concat(
                msg.as_str(),
            ),
            LoaderError::Face(msg) => String::from_str("Could not read face from file: ").concat(
                msg.as_str(),
            ),
            LoaderError::Io(msg) => String::from_str("Could not load file: ").concat(msg.as_str()),
            LoaderError::ParseFloat(_) => String::from_str("Could not parse float in file"),
            LoaderError::ParseInt(_) => String::from_str("Could not parse int in file"),
        }
    }
}

/// The byte of a blank.
pub const BLANK: u8 = 32;

/// The byte of a line feed.
pub const LINE_FEED: u8 = 10;

/// The byte of a carriage return.
pub const CARRIAGE_RETURN: u8 = 13;

/// The largest count that is carried when a numeral is read; a numeral of
/// a greater value counts as this or more.
pub const CAP: u128 = 10_000_000_000_000_000_000_000;

/// Whether a byte is a decimal digit.
pub open spec fn spec_is_digit(b: u8) -> bool {
    48 <= b <= 57
}

/// The pieces of `s` between the occurrences of `sep`; there is always one
/// piece more than there are occurrences.
pub open spec fn spec_split(s: Seq<u8>, sep: u8) -> Seq<Seq<u8>>
    decreases s.len(),
{
    if s.len() == 0 {
        seq![Seq::<u8>::empty()]
    } else {
        let before = spec_split(s.drop_last(), sep);
        if s.last() == sep {
            before.push(Seq::<u8>::empty())
        } else {
            before.drop_last().push(before.last().push(s.last()))
        }
    }
}

/// The pieces that are not empty.
pub open spec fn spec_nonempty(pieces: Seq<Seq<u8>>) -> Seq<Seq<u8>>
    decreases pieces.len(),
{
    if pieces.len() == 0 {
        Seq::empty()
    } else if pieces.last().len() == 0 {
        spec_nonempty(pieces.drop_last())
    } else {
        spec_nonempty(pieces.drop_last()).push(pieces.last())
    }
}

/// The tokens of a line: what stands between its blanks.
pub open spec fn spec_tokens(line: Seq<u8>) -> Seq<Seq<u8>> {
    spec_nonempty(spec_split(line, BLANK))
}

/// A line without the carriage return at its end, if it has one.
pub open spec fn spec_chomp(line: Seq<u8>) -> Seq<u8> {
    if line.len() > 0 && line.last() == CARRIAGE_RETURN {
        line.drop_last()
    } else {
        line
    }
}

/// The views of a list of byte strings.
pub open spec fn spec_views(pieces: Seq<Vec<u8>>) -> Seq<Seq<u8>> {
    Seq::new(pieces.len(), |i: int| pieces[i]@)
}

/// What has been read of an unsigned decimal numeral with a fraction.
pub struct Reading {
    /// The value of the digits before the point, held below ten times
    /// [`CAP`].
    pub whole: u128,
    /// The value of the first six digits behind the point.
    pub frac: u64,
    /// The number of digits behind the point that were taken: six at most.
    pub places: u8,
    /// Whether the point was met.
    pub point: bool,
    /// Whether a digit was met.
    pub digits: bool,
    /// Whether a byte was met that does not belong.
    pub bad: bool,
}

/// Nothing read.
pub open spec fn spec_unread() -> Reading {
    Reading { whole: 0, frac: 0, places: 0, point: false, digits: false, bad: false }
}

/// The reading after one more byte. A digit before the point adds to the
/// whole part, which stays as it is once it has reached [`CAP`]; one of the
/// first six digits behind the point adds to the fraction, and a later one
/// is dropped. A first point is taken. Any other byte spoils the numeral.
pub open spec fn spec_read(r: Reading, b: u8) -> Reading {
    if r.bad {
        r
    } else if spec_is_digit(b) {
        if !r.point {
            Reading {
                whole: if r.whole < CAP {
                    (r.whole * 10 + (b - 48)) as u128
                } else {
                    r.whole
                },
                digits: true,
                ..r
            }
        } else if r.places < 6 {
            Reading {
                frac: (r.frac * 10 + (b - 48)) as u64,
                places: (r.places + 1) as u8,
                digits: true,
                ..r
            }
        } else {
            Reading { digits: true, ..r }
        }
    } else if b == 46 && !r.point {
        Reading { point: true, ..r }
    } else {
        Reading { bad: true, ..r }
    }
}

/// The reading after all bytes of `s`.
pub open spec fn spec_read_all(s: Seq<u8>) -> Reading
    decreases s.len(),
{
    if s.len() == 0 {
        spec_unread()
    } else {
        spec_read(spec_read_all(s.drop_last()), s.last())
    }
}

/// Whether a reading stays within the bounds that reading keeps.
pub open spec fn spec_bounded(r: Reading) -> bool {
    r.whole < 10 * CAP + 10 && r.places <= 6 && r.frac < pow10(r.places as nat)
}

/// Whether a token begins with a sign.
pub open spec fn spec_signed(token: Seq<u8>) -> bool {
    token.len() > 0 && (token[0] == 45 || token[0] == 43)
}

/// A token without its sign.
pub open spec fn spec_unsigned(token: Seq<u8>) -> Seq<u8> {
    if spec_signed(token) {
        token.subrange(1, token.len() as int)
    } else {
        token
    }
}

/// Whether a token begins with a minus sign.
pub open spec fn spec_negative(token: Seq<u8>) -> bool {
    token.len() > 0 && token[0] == 45
}

/// The scalar that a numeral without exponent stands for: a sign or none,
/// then digits with or without a point among them, and at least one digit.
/// Digits behind the sixth behind the point are dropped, and a value outside
/// the range of a scalar gives the nearest end of that range.
pub open spec fn spec_parse_plain(token: Seq<u8>) -> Option<Scalar> {
    let r = spec_read_all(spec_unsigned(token));
    if r.bad || !r.digits {
        None
    } else {
        let magnitude = r.whole * 1_000_000 + r.frac * pow10((6 - r.places) as nat);
        Some(
            Scalar::of(
                if spec_negative(token) {
                    -magnitude
                } else {
                    magnitude
                },
            ),
        )
    }
}

/// Whether a byte marks the exponent of a numeral: `e` or `E`.
pub open spec fn spec_is_mark(b: u8) -> bool {
    b == 101 || b == 69
}

/// Where the first exponent mark of a token stands, from `from` on; the
/// length of the token where it has none.
pub open spec fn spec_mark_at(token: Seq<u8>, from: int) -> int
    decreases token.len() - from,
{
    if from < 0 || from >= token.len() {
        token.len() as int
    } else if spec_is_mark(token[from]) {
        from
    } else {
        spec_mark_at(token, from + 1)
    }
}

/// The greatest power of ten by which a scalar is scaled in one go: a
/// scalar other than zero times this power is past the range of a scalar,
/// and any scalar divided by it is zero.
pub const REACH: i64 = 19;

/// A scalar times ten to the power `e`: the product for an exponent that
/// is not negative, which beyond the range of a scalar gives the nearest end
/// of that range, and the quotient rounded toward zero for a negative one.
pub open spec fn spec_scaled(m: Scalar, e: int) -> Scalar {
    if e >= 0 {
        Scalar::of(
            m@ * pow10(
                (if e > REACH {
                    REACH as int
                } else {
                    e
                }) as nat,
            ),
        )
    } else {
        Scalar::of(
            quotient(
                m@,
                pow10(
                    (if -e > REACH {
                        REACH as int
                    } else {
                        -e
                    }) as nat,
                ),
            ),
        )
    }
}

/// The scalar that a token stands for: a numeral as [`spec_parse_plain`]
/// reads it, or such a numeral, an exponent mark and a whole number, which
/// stand for the numeral times ten to the power of the whole number. The
/// numeral is read to six places behind the point before it is scaled.
pub open spec fn spec_parse_scalar(token: Seq<u8>) -> Option<Scalar> {
    let mark = spec_mark_at(token, 0);
    if mark >= token.len() {
        spec_parse_plain(token)
    } else {
        match (spec_parse_plain(token.take(mark)), spec_parse_int(token.skip(mark + 1))) {
            (Some(m), Some(e)) => Some(spec_scaled(m, e)),
            _ => None,
        }
    }
}

/// The whole number that a token stands for: a sign or none and at least
/// one digit, nothing else, with a value in the range of 64 bits.
pub open spec fn spec_parse_int(token: Seq<u8>) -> Option<int> {
    let r = spec_read_all(spec_unsigned(token));
    if r.bad || !r.digits || r.point {
        None
    } else {
        let value = if spec_negative(token) {
            -(r.whole as int)
        } else {
            r.whole as int
        };
        if i64::MIN <= value <= i64::MAX {
            Some(value)
        } else {
            None
        }
    }
}

fn read_all(token: &Vec<u8>, from: usize) -> (r: Reading)
    requires
        from <= token.len(),
    ensures
        r == spec_read_all(token@.subrange(from as int, token.len() as int)),
        spec_bounded(r),
{
    let ghost s = token@.subrange(from as int, token.len() as int);
    let mut r: Reading = Reading {
        whole: 0,
        frac: 0,
        places: 0,
        point: false,
        digits: false,
        bad: false,
    };
    let mut i: usize = from;
    proof {
        reveal_with_fuel(pow10, 8);
    }
    while i < token.len()
        invariant
            from <= i <= token.len(),
            s == token@.subrange(from as int, token.len() as int),
            r == spec_read_all(s.take(i - from)),
            spec_bounded(r),
        decreases token.len() - i,
    {
        assert(s.take(i - from + 1).drop_last() =~= s.take(i - from));
        assert(s.take(i - from + 1).last() == token[i as int]);
        let b: u8 = token[i];
        proof {
            reveal_with_fuel(pow10, 8);
        }
        if !r.bad {
            if 48 <= b && b <= 57 {
                if !r.point {
                    if r.whole < CAP {
                        r.whole = r.whole * 10 + (b - 48) as u128;
                    }
                } else if r.places < 6 {
                    r.frac = r.frac * 10 + (b - 48) as u64;
                    r.places = r.places + 1;
                }
                r.digits = true;
            } else if b == 46 && !r.point {
                r.point = true;
            } else {
                r.bad = true;
            }
        }
        i += 1;
    }
    assert(s.take(i - from) =~= s);
    r
}

/// Where the numeral of a token begins: behind its sign, if it has one.
fn numeral_start(token: &Vec<u8>) -> (from: usize)
    ensures
        from <= token.len(),
        token@.subrange(from as int, token.len() as int) == spec_unsigned(token@),
{
    if token.len() > 0 && (token[0] == 45 || token[0] == 43) {
        1
    } else {
        assert(token@.subrange(0, token.len() as int) =~= token@);
        0
    }
}

/// Ten to the power of six less `places`.
fn scale_up(places: u8) -> (f: u64)
    requires
        places <= 6,
    ensures
        f == pow10((6 - places) as nat),
{
    proof {
        reveal_with_fuel(pow10, 8);
    }
    if places == 0 {
        1_000_000
    } else if places == 1 {
        100_000
    } else if places == 2 {
        10_000
    } else if places == 3 {
        1_000
    } else if places == 4 {
        100
    } else if places == 5 {
        10
    } else {
        1
    }
}

/// Where the first exponent mark of a token stands.
fn mark_at(token: &Vec<u8>) -> (mark: usize)
    ensures
        mark == spec_mark_at(token@, 0),
        mark <= token.len(),
{
    let mut i: usize = 0;
    while i < token.len()
        invariant
            i <= token.len(),
            spec_mark_at(token@, 0) == spec_mark_at(token@, i as int),
        decreases token.len() - i,
    {
        if token[i] == 101 || token[i] == 69 {
            return i;
        }
        i += 1;
    }
    i
}

/// The bytes `from..to` of a token.
fn part(token: &Vec<u8>, from: usize, to: usize) -> (copy: Vec<u8>)
    requires
        from <= to <= token.len(),
    ensures
        copy@ == token@.subrange(from as int, to as int),
{
    let mut copy: Vec<u8> = Vec::new();
    let mut i: usize = from;
    while i < to
        invariant
            from <= i <= to <= token.len(),
            copy@ == token@.subrange(from as int, i as int),
        decreases to - i,
    {
        copy.push(token[i]);
        assert(copy@ =~= token@.subrange(from as int, i + 1));
        i += 1;
    }
    copy
}

/// Ten to the power `k`.
fn ten_to(k: u32) -> (power: i128)
    requires
        k <= REACH,
    ensures
        power == pow10(k as nat),
        1 <= power <= 10_000_000_000_000_000_000,
{
    proof {
        reveal_with_fuel(pow10, 21);
    }
    let mut power: i128 = 1;
    let mut i: u32 = 0;
    while i < k
        invariant
            i <= k <= REACH,
            power == pow10(i as nat),
            1 <= power,
            power * pow10((REACH - i) as nat) == 10_000_000_000_000_000_000,
        decreases k - i,
    {
        proof {
            let rest = pow10((REACH - i - 1) as nat);
            assert(pow10((REACH - i) as nat) == 10 * rest);
            assert(rest >= 1) by {
                lemma_pow10_at_least_one((REACH - i - 1) as nat);
            }
            assert(power * (10 * rest) == (power * 10) * rest) by (nonlinear_arith);
            assert(power * 10 <= (power * 10) * rest) by (nonlinear_arith)
                requires
                    rest >= 1,
                    power >= 1,
            ;
        }
        power = power * 10;
        i += 1;
    }
    proof {
        let rest = pow10((REACH - k) as nat);
        lemma_pow10_at_least_one((REACH - k) as nat);
        assert(power <= power * rest) by (nonlinear_arith)
            requires
                rest >= 1,
                power >= 1,
        ;
    }
    power
}

/// A power of ten is at least one.
proof fn lemma_pow10_at_least_one(n: nat)
    ensures
        pow10(n) >= 1,
    decreases n,
{
    if n > 0 {
        lemma_pow10_at_least_one((n - 1) as nat);
    }
}

/// A scalar times ten to the power `e`.
fn scaled(m: Scalar, e: i64) -> (r: Scalar)
    ensures
        r == spec_scaled(m, e as int),
{
    if e >= 0 {
        let k: u32 = if e > REACH {
            REACH as u32
        } else {
            e as u32
        };
        let power: i128 = ten_to(k);
        assert(-170_000_000_000_000_000_000_000_000_000_000_000_000 < m.raw * power
            < 170_000_000_000_000_000_000_000_000_000_000_000_000) by (nonlinear_arith)
            requires
                -0x8000_0000_0000_0000 <= m.raw <= 0x7fff_ffff_ffff_ffff,
                1 <= power <= 10_000_000_000_000_000_000,
        ;
        Scalar::from_wide(m.raw as i128 * power)
    } else {
        let k: u32 = if e < -REACH {
            REACH as u32
        } else {
            (-e) as u32
        };
        let power: i128 = ten_to(k);
        let wide: i128 = m.raw as i128;
        if wide >= 0 {
            assert(0 <= wide / power <= wide) by (nonlinear_arith)
                requires
                    wide >= 0,
                    power >= 1,
            ;
            Scalar::from_wide(wide / power)
        } else {
            let magnitude: i128 = -wide;
            assert(0 <= magnitude / power <= magnitude) by (nonlinear_arith)
                requires
                    magnitude >= 0,
                    power >= 1,
            ;
            Scalar::from_wide(-(magnitude / power))
        }
    }
}

/// Reads a token as a scalar.
pub fn parse_scalar(token: &Vec<u8>) -> (value: Option<Scalar>)
    ensures
        value == spec_parse_scalar(token@),
{
    let mark: usize = mark_at(token);
    if mark >= token.len() {
        return parse_plain(token);
    }
    let numeral: Vec<u8> = part(token, 0, mark);
    let exponent: Vec<u8> = part(token, mark + 1, token.len());
    assert(token@.subrange(0, mark as int) =~= token@.take(mark as int));
    assert(token@.subrange(mark + 1, token.len() as int) =~= token@.skip(mark + 1));
    match (parse_plain(&numeral), parse_int(&exponent)) {
        (Some(m), Some(e)) => Some(scaled(m, e)),
        _ => None,
    }
}

/// Reads a numeral without exponent as a scalar.
fn parse_plain(token: &Vec<u8>) -> (value: Option<Scalar>)
    ensures
        value == spec_parse_plain(token@),
{
    let from: usize = numeral_start(token);
    let r: Reading = read_all(token, from);
    if r.bad || !r.digits {
        return None;
    }
    let up: u64 = scale_up(r.places);
    proof {
        reveal_with_fuel(pow10, 8);
        assert(pow10(0) == 1 && pow10(1) == 10 && pow10(2) == 100 && pow10(3) == 1_000 && pow10(4)
            == 10_000 && pow10(5) == 100_000 && pow10(6) == 1_000_000);
        assert(pow10(r.places as nat) * pow10((6 - r.places) as nat) == 1_000_000) by {
            if r.places == 0 {
            } else if r.places == 1 {
            } else if r.places == 2 {
            } else if r.places == 3 {
            } else if r.places == 4 {
            } else if r.places == 5 {
            } else {
            }
        }
        assert(r.frac * up < 1_000_000) by (nonlinear_arith)
            requires
                r.frac < pow10(r.places as nat),
                up == pow10((6 - r.places) as nat),
                pow10(r.places as nat) * pow10((6 - r.places) as nat) == 1_000_000,
                0 <= r.frac,
                0 < up,
        ;
    }
    let magnitude: u128 = r.whole * 1_000_000 + (r.frac * up) as u128;
    let negative: bool = token.len() > 0 && token[0] == 45;
    if magnitude > i64::MAX as u128 {
        if negative {
            Some(Scalar::neg_infinity())
        } else {
            Some(Scalar::infinity())
        }
    } else if negative {
        Some(Scalar::from_raw(-(magnitude as i64)))
    } else {
        Some(Scalar::from_raw(magnitude as i64))
    }
}

/// Reads a token as a whole number.
pub fn parse_int(token: &Vec<u8>) -> (value: Option<i64>)
    ensures
        match value {
            Some(v) => spec_parse_int(token@) == Some(v as int),
            None => spec_parse_int(token@) is None,
        },
{
    let from: usize = numeral_start(token);
    let r: Reading = read_all(token, from);
    if r.bad || !r.digits || r.point {
        return None;
    }
    let negative: bool = token.len() > 0 && token[0] == 45;
    if negative {
        if r.whole > 0x8000_0000_0000_0000 {
            None
        } else if r.whole == 0x8000_0000_0000_0000 {
            Some(i64::MIN)
        } else {
            Some(-(r.whole as i64))
        }
    } else if r.whole > i64::MAX as u128 {
        None
    } else {
        Some(r.whole as i64)
    }
}

/// Cuts the first `upto` bytes of `s` at every occurrence of `sep`.
fn split(s: &[u8], upto: usize, sep: u8) -> (pieces: Vec<Vec<u8>>)
    requires
        upto <= s.len(),
    ensures
        spec_views(pieces@) == spec_split(s@.take(upto as int), sep),
{
    let ghost text = s@.take(upto as int);
    let mut done: Vec<Vec<u8>> = Vec::new();
    let mut current: Vec<u8> = Vec::new();
    let mut i: usize = 0;
    while i < upto
        invariant
            i <= upto <= s.len(),
            text == s@.take(upto as int),
            spec_views(done@).push(current@) == spec_split(text.take(i as int), sep),
        decreases upto - i,
    {
        assert(text.take(i + 1).drop_last() =~= text.take(i as int));
        assert(text.take(i + 1).last() == s[i as int]);
        let ghost before = spec_views(done@).push(current@);
        if s[i] == sep {
            done.push(current);
            current = Vec::new();
            assert(spec_views(done@).push(current@) =~= before.push(Seq::<u8>::empty()));
        } else {
            current.push(s[i]);
            assert(spec_views(done@).push(current@) =~= before.drop_last().push(
                before.last().push(s[i as int]),
            ));
        }
        i += 1;
    }
    assert(text.take(i as int) =~= text);
    let ghost before = spec_views(done@).push(current@);
    done.push(current);
    assert(spec_views(done@) =~= before);
    done
}

/// The tokens of a line, which are those of its first `upto` bytes.
fn tokens(line: &[u8], upto: usize) -> (found: Vec<Vec<u8>>)
    requires
        upto <= line.len(),
    ensures
        spec_views(found@) == spec_tokens(line@.take(upto as int)),
{
    let pieces: Vec<Vec<u8>> = split(line, upto, BLANK);
    let ghost all = spec_views(pieces@);
    let mut rest: Vec<Vec<u8>> = pieces;
    let mut kept_reversed: Vec<Vec<u8>> = Vec::new();
    proof {
        assert(all.take(rest.len() as int) =~= all);
        assert(spec_views(kept_reversed@).reverse() =~= Seq::<Seq<u8>>::empty());
        assert(spec_nonempty(all) + Seq::<Seq<u8>>::empty() =~= spec_nonempty(all));
    }
    // The pieces are taken from the end, so the tokens come out in reverse.
    while rest.len() > 0
        invariant
            spec_views(rest@) == all.take(rest.len() as int),
            rest.len() <= all.len(),
            spec_nonempty(all) == spec_nonempty(all.take(rest.len() as int)) + spec_views(
                kept_reversed@,
            ).reverse(),
        decreases rest.len(),
    {
        let ghost n = rest.len() as int;
        let ghost kept_before = spec_views(kept_reversed@);
        let last = rest.pop();
        match last {
            Some(piece) => {
                assert(piece@ == all[n - 1]) by {
                    assert(all.take(n)[n - 1] == all[n - 1]);
                }
                assert(all.take(n).drop_last() =~= all.take(n - 1));
                if piece.len() > 0 {
                    kept_reversed.push(piece);
                    assert(spec_views(kept_reversed@) =~= kept_before.push(all[n - 1]));
                    assert(spec_views(kept_reversed@).reverse() =~= seq![all[n - 1]]
                        + kept_before.reverse());
                    assert(spec_nonempty(all.take(n)) + kept_before.reverse() =~= spec_nonempty(
                        all.take(n - 1),
                    ) + spec_views(kept_reversed@).reverse());
                }
                assert(spec_views(rest@) =~= all.take(n - 1));
            },
            None => {},
        }
    }
    assert(all.take(0) =~= Seq::<Seq<u8>>::empty());
    let ghost reversed = spec_views(kept_reversed@);
    let mut found: Vec<Vec<u8>> = Vec::new();
    while kept_reversed.len() > 0
        invariant
            spec_views(kept_reversed@) == reversed.take(kept_reversed.len() as int),
            kept_reversed.len() <= reversed.len(),
            found.len() + kept_reversed.len() == reversed.len(),
            forall|j: int|
                0 <= j < found.len() ==> (#[trigger] found[j])@ == reversed[reversed.len() - 1 - j],
        decreases kept_reversed.len(),
    {
        let ghost n = kept_reversed.len() as int;
        let last = kept_reversed.pop();
        match last {
            Some(piece) => {
                assert(piece@ == reversed[n - 1]) by {
                    assert(reversed.take(n)[n - 1] == reversed[n - 1]);
                }
                found.push(piece);
                assert(spec_views(kept_reversed@) =~= reversed.take(n - 1));
            },
            None => {},
        }
    }
    assert(spec_views(found@) =~= reversed.reverse());
    assert(spec_nonempty(all) =~= reversed.reverse());
    found
}

/// The message for a vertex with fewer than three coordinates.
pub open spec fn spec_few_coordinates() -> Seq<char> {
    "Received fewer than three coordinates"@
}

/// The message for a face with fewer than three indices.
pub open spec fn spec_few_indices() -> Seq<char> {
    "Received fewer than three indices"@
}

/// The message for a face with an index that no vertex has.
pub open spec fn spec_outside() -> Seq<char> {
    "An index refers to a vertex outside of the current range"@
}

/// The message for a face with four indices.
pub open spec fn spec_quad() -> Seq<char> {
    "Faces of four vertices are not supported"@
}

/// The message for a face with more than four indices.
pub open spec fn spec_many_indices() -> Seq<char> {
    "Too many indices"@
}

/// Whether a token is the one byte `b`.
pub open spec fn spec_is_word(token: Seq<u8>, b: u8) -> bool {
    token.len() == 1 && token[0] == b
}

/// The index, counted from zero, that an index of a face stands for while
/// there are `count` vertices: one less than a positive index, and `count`
/// plus a negative one, so that `-1` is the vertex read last; none where no
/// vertex has that index.
pub open spec fn spec_normalize(i: int, count: nat) -> Option<usize> {
    let u = if i < 0 {
        count + i
    } else {
        i - 1
    };
    if 0 <= u < count && u <= usize::MAX {
        Some(u as usize)
    } else {
        None
    }
}

/// The model after a line with the given tokens.
///
/// A line of fewer than two tokens changes nothing. A line that begins with
/// `v` adds the vertex of its first three coordinates. A line that begins
/// with `f` and has three indices adds the face of the first, the third and
/// the second of them, in that order. Any other line changes nothing.
pub open spec fn spec_step(model: ObjModel, tokens: Seq<Seq<u8>>) -> Result<ObjModel, ErrorModel> {
    if tokens.len() <= 1 {
        Ok(model)
    } else if spec_is_word(tokens[0], 118) {
        if tokens.len() < 4 {
            Err(ErrorModel::Vert(spec_few_coordinates()))
        } else {
            match spec_parse_scalar(tokens[1]) {
                None => Err(ErrorModel::ParseFloat(tokens[1])),
                Some(x) => match spec_parse_scalar(tokens[2]) {
                    None => Err(ErrorModel::ParseFloat(tokens[2])),
                    Some(y) => match spec_parse_scalar(tokens[3]) {
                        None => Err(ErrorModel::ParseFloat(tokens[3])),
                        Some(z) => Ok(
                            ObjModel { vertices: model.vertices.push(Vec3(x, y, z)), ..model },
                        ),
                    },
                },
            }
        }
    } else if spec_is_word(tokens[0], 102) {
        if tokens.len() < 4 {
            Err(ErrorModel::Face(spec_few_indices()))
        } else if tokens.len() == 4 {
            match spec_parse_int(tokens[1]) {
                None => Err(ErrorModel::ParseInt(tokens[1])),
                Some(i_1) => match spec_parse_int(tokens[2]) {
                    None => Err(ErrorModel::ParseInt(tokens[2])),
                    Some(i_2) => match spec_parse_int(tokens[3]) {
                        None => Err(ErrorModel::ParseInt(tokens[3])),
                        Some(i_3) => {
                            let count = model.vertices.len();
                            match (
                                spec_normalize(i_1, count),
                                spec_normalize(i_2, count),
                                spec_normalize(i_3, count),
                            ) {
                                (Some(u_1), Some(u_2), Some(u_3)) => Ok(
                                    ObjModel {
                                        faces: model.faces.push(seq![u_1, u_3, u_2]),
                                        ..model
                                    },
                                ),
                                _ => Err(ErrorModel::Face(spec_outside())),
                            }
                        },
                    },
                },
            }
        } else if tokens.len() == 5 {
            Err(ErrorModel::Face(spec_quad()))
        } else {
            Err(ErrorModel::Face(spec_many_indices()))
        }
    } else {
        Ok(model)
    }
}

/// The model after the given lines, or the error of the first line that is
/// wrong.
pub open spec fn spec_load_lines(lines: Seq<Seq<u8>>) -> Result<ObjModel, ErrorModel>
    decreases lines.len(),
{
    if lines.len() == 0 {
        Ok(ObjModel { vertices: Seq::empty(), faces: Seq::empty() })
    } else {
        match spec_load_lines(lines.drop_last()) {
            Err(e) => Err(e),
            Ok(model) => spec_step(model, spec_tokens(spec_chomp(lines.last()))),
        }
    }
}

/// The model that a file holds, or the error of its first line that is
/// wrong. The lines of the file end at line feeds, with or without a
/// carriage return before them.
pub open spec fn spec_load(source: Seq<u8>) -> Result<ObjModel, ErrorModel> {
    spec_load_lines(spec_split(source, LINE_FEED))
}

/// Once a line is wrong, the lines behind it change nothing.
pub proof fn lemma_error_sticks(lines: Seq<Seq<u8>>, k: int)
    requires
        0 <= k <= lines.len(),
        spec_load_lines(lines.take(k)) is Err,
    ensures
        spec_load_lines(lines) == spec_load_lines(lines.take(k)),
    decreases lines.len() - k,
{
    if k < lines.len() {
        assert(lines.take(k + 1).drop_last() =~= lines.take(k));
        lemma_error_sticks(lines, k + 1);
    } else {
        assert(lines.take(k) =~= lines);
    }
}

/// The model of the given vertices and faces.
pub open spec fn spec_model(vertices: Seq<Point3>, indices: Seq<(Polygon, Vec<usize>)>) -> ObjModel {
    ObjModel { vertices, faces: Seq::new(indices.len(), |i: int| indices[i].1@) }
}

/// Whether every face is a triangle of three of the first `count` vertices.
pub open spec fn spec_faces_within(indices: Seq<(Polygon, Vec<usize>)>, count: nat) -> bool {
    forall|i: int|
        0 <= i < indices.len() ==> {
            let face = (#[trigger] indices[i]).1;
            &&& face.len() == 3
            &&& face[0] < count
            &&& face[1] < count
            &&& face[2] < count
        }
}

fn copy_bytes(bytes: &Vec<u8>) -> (copy: Vec<u8>)
    ensures
        copy@ == bytes@,
{
    let mut copy: Vec<u8> = Vec::new();
    let mut i: usize = 0;
    while i < bytes.len()
        invariant
            i <= bytes.len(),
            copy@ == bytes@.take(i as int),
        decreases bytes.len() - i,
    {
        copy.push(bytes[i]);
        assert(copy@ =~= bytes@.take(i + 1));
        i += 1;
    }
    assert(bytes@.take(i as int) =~= bytes@);
    copy
}

fn is_word(token: &Vec<u8>, b: u8) -> (yes: bool)
    ensures
        yes == spec_is_word(token@, b),
{
    token.len() == 1 && token[0] == b
}

fn normalize(i: i64, count: usize) -> (u: Option<usize>)
    ensures
        u == spec_normalize(i as int, count as nat),
{
    let wide: i128 = if i < 0 {
        count as i128 + i as i128
    } else {
        i as i128 - 1
    };
    if 0 <= wide && wide < count as i128 {
        Some(wide as usize)
    } else {
        None
    }
}

/// Takes the line with the tokens `data` into the model.
fn step(
    vertices: &mut Vec<Point3>,
    indices: &mut Vec<(Polygon, Vec<usize>)>,
    data: &Vec<Vec<u8>>,
) -> (r: Result<(), LoaderError>)
    requires
        spec_faces_within(old(indices)@, old(vertices).len() as nat),
    ensures
        spec_faces_within(final(indices)@, final(vertices).len() as nat),
        match r {
            Ok(()) => spec_step(spec_model(old(vertices)@, old(indices)@), spec_views(data@))
                == Ok::<ObjModel, ErrorModel>(spec_model(final(vertices)@, final(indices)@)),
            Err(e) => spec_step(spec_model(old(vertices)@, old(indices)@), spec_views(data@))
                == Err::<ObjModel, ErrorModel>(e.model()),
        },
{
    let ghost model = spec_model(vertices@, indices@);
    let ghost toks = spec_views(data@);
    if data.len() <= 1 {
        return Ok(());
    }
    assert(toks[0] == data[0]@ && toks[1] == data[1]@);
    if is_word(&data[0], 118) {
        if data.len() < 4 {
            return Err(
                LoaderError::Vert(String::from_str("Received fewer than three coordinates")),
            );
        }
        assert(toks[2] == data[2]@ && toks[3] == data[3]@);
        let v_x: Scalar = match parse_scalar(&data[1]) {
            Some(x) => x,
            None => {
                return Err(LoaderError::ParseFloat(copy_bytes(&data[1])));
            },
        };
        let v_y: Scalar = match parse_scalar(&data[2]) {
            Some(y) => y,
            None => {
                return Err(LoaderError::ParseFloat(copy_bytes(&data[2])));
            },
        };
        let v_z: Scalar = match parse_scalar(&data[3]) {
            Some(z) => z,
            None => {
                return Err(LoaderError::ParseFloat(copy_bytes(&data[3])));
            },
        };
        vertices.push(Point3::new(v_x, v_y, v_z));
        assert(spec_model(vertices@, indices@).faces =~= model.faces);
        Ok(())
    } else if is_word(&data[0], 102) {
        if data.len() < 4 {
            return Err(LoaderError::Face(String::from_str("Received fewer than three indices")));
        }
        if data.len() == 5 {
            return Err(
                LoaderError::Face(String::from_str("Faces of four vertices are not supported")),
            );
        }
        if data.len() > 5 {
            return Err(LoaderError::Face(String::from_str("Too many indices")));
        }
        assert(toks[2] == data[2]@ && toks[3] == data[3]@);
        let i_1: i64 = match parse_int(&data[1]) {
            Some(i) => i,
            None => {
                return Err(LoaderError::ParseInt(copy_bytes(&data[1])));
            },
        };
        let i_2: i64 = match parse_int(&data[2]) {
            Some(i) => i,
            None => {
                return Err(LoaderError::ParseInt(copy_bytes(&data[2])));
            },
        };
        let i_3: i64 = match parse_int(&data[3]) {
            Some(i) => i,
            None => {
                return Err(LoaderError::ParseInt(copy_bytes(&data[3])));
            },
        };
        let count: usize = vertices.len();
        let u_1: Option<usize> = normalize(i_1, count);
        let u_2: Option<usize> = normalize(i_2, count);
        let u_3: Option<usize> = normalize(i_3, count);
        match (u_1, u_2, u_3) {
            (Some(u_1), Some(u_2), Some(u_3)) => {
                let mut face_indices: Vec<usize> = Vec::new();
                face_indices.push(u_1);
                face_indices.push(u_3);
                face_indices.push(u_2);
                assert(face_indices@ =~= seq![u_1, u_3, u_2]);
                let ghost before = indices@;
                indices.push((Polygon::Tri, face_indices));
                assert(spec_model(vertices@, indices@).faces =~= model.faces.push(
                    seq![u_1, u_3, u_2],
                ));
                assert forall|i: int| 0 <= i < indices.len() implies {
                    let face = (#[trigger] indices@[i]).1;
                    &&& face.len() == 3
                    &&& face[0] < count
                    &&& face[1] < count
                    &&& face[2] < count
                } by {
                    if i < before.len() {
                        assert(indices@[i] == before[i]);
                    }
                }
                Ok(())
            },
            _ => Err(
                LoaderError::Face(
                    String::from_str("An index refers to a vertex outside of the current range"),
                ),
            ),
        }
    } else {
        Ok(())
    }
}

/// The loader of models.
pub struct Loader;

impl Loader {
    /// Loads the model that the bytes of a file in the OBJ format hold.
    ///
    /// The model is the one that [`spec_load`] finds in the file, and it is
    /// well-formed; where a line of the file is wrong, the error is that of
    /// the first such line.
    pub fn load_obj(source: &[u8]) -> (loaded: Result<Obj, LoaderError>)
        ensures
            match loaded {
                Ok(obj) => spec_load(source@) == Ok::<ObjModel, ErrorModel>(obj.model())
                    && obj.well_formed(),
                Err(e) => spec_load(source@) == Err::<ObjModel, ErrorModel>(e.model()),
            },
    {
        assert(source@.take(source.len() as int) =~= source@);
        let lines: Vec<Vec<u8>> = split(source, source.len(), LINE_FEED);
        let ghost all = spec_views(lines@);
        let mut vertices: Vec<Point3> = Vec::new();
        let mut indices: Vec<(Polygon, Vec<usize>)> = Vec::new();
        let mut i: usize = 0;
        assert(spec_model(vertices@, indices@).faces =~= Seq::<Seq<usize>>::empty());
        while i < lines.len()
            invariant
                i <= lines.len(),
                all == spec_views(lines@),
                all == spec_split(source@, LINE_FEED),
                spec_faces_within(indices@, vertices.len() as nat),
                spec_load_lines(all.take(i as int)) == Ok::<ObjModel, ErrorModel>(
                    spec_model(vertices@, indices@),
                ),
            decreases lines.len() - i,
        {
            let line: &Vec<u8> = &lines[i];
            let upto: usize = if line.len() > 0 && line[line.len() - 1] == CARRIAGE_RETURN {
                line.len() - 1
            } else {
                line.len()
            };
            proof {
                assert(all.take(i + 1).drop_last() =~= all.take(i as int));
                assert(all.take(i + 1).last() == line@);
                assert(line@.take(upto as int) =~= spec_chomp(line@));
            }
            let data: Vec<Vec<u8>> = tokens(line.as_slice(), upto);
            let ghost model = spec_model(vertices@, indices@);
            let stepped = step(&mut vertices, &mut indices, &data);
            proof {
                assert(spec_load_lines(all.take(i + 1)) == spec_step(
                    model,
                    spec_tokens(spec_chomp(line@)),
                ));
            }
            match stepped {
                Ok(()) => {},
                Err(e) => {
                    proof {
                        assert(spec_load_lines(all.take(i + 1)) == Err::<ObjModel, ErrorModel>(
                            e.model(),
                        ));
                        lemma_error_sticks(all, i + 1);
                    }
                    return Err(e);
                },
            }
            i += 1;
        }
        assert(all.take(i as int) =~= all);
        let obj = Obj { vertices, indices };
        assert(obj.model().faces =~= spec_model(obj.vertices@, obj.indices@).faces);
        Ok(obj)
    }
}

} // verus!
