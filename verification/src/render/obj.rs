//! The mesh loader: a Wavefront-OBJ-subset text resource is scanned line by
//! line into a `Mesh`.
//!
//! The grammar and its meaning are stated below as specification functions
//! over the byte sequence; `Mesh::from_text` returns exactly what `obj_parse`
//! says, including which `ParseError` comes on which malformed input. Numbers
//! are read into fixed point: a sign, a whole part, and at most six fraction
//! digits contribute (further fraction digits are checked and dropped, which
//! is below the fixed-point step anyway).

use crate::fixed::FX_ONE;
use crate::render::types::{Mesh, TextureCoordinate, Vertex3};
use vstd::prelude::*;

verus! {

/// Largest whole part a coordinate or index may carry: anything above is
/// rejected at load time so that every later arithmetic step stays in range.
pub const INT_LIMIT: i64 = 0x100_0000;

/// Why a load failed; the whole load fails rather than yielding a partial mesh.
#[derive(Clone, Copy, PartialEq, Eq, Structural, Debug)]
pub enum ParseError {
    /// A `v` line without exactly three well-formed numbers.
    BadVertex,
    /// A `vt` line without exactly two well-formed numbers.
    BadTexcoord,
    /// A `vn` line with a malformed number.
    BadNormal,
    /// An `f` line with fewer than three corners or a malformed corner.
    BadFace,
    /// A well-formed number whose whole part is over `INT_LIMIT`.
    NumberOutOfRange,
    /// A face index at or over the length of the list it points into.
    IndexOutOfBounds,
}

pub open spec fn is_ws(b: u8) -> bool {
    b == 32 || b == 9 || b == 13
}

pub open spec fn is_digit(b: u8) -> bool {
    48 <= b <= 57
}

/// Index of the first occurrence of `b` in `s`, or `s.len()` if none.
pub open spec fn find_pos(s: Seq<u8>, b: u8) -> int
    decreases s.len(),
{
    if s.len() == 0 {
        0
    } else if s[0] == b {
        0
    } else {
        1 + find_pos(s.subrange(1, s.len() as int), b)
    }
}

pub proof fn lemma_find_pos(s: Seq<u8>, b: u8)
    ensures
        0 <= find_pos(s, b) <= s.len(),
        find_pos(s, b) < s.len() ==> s[find_pos(s, b)] == b,
        forall|i: int| 0 <= i < find_pos(s, b) ==> s[i] != b,
    decreases s.len(),
{
    if s.len() == 0 {
    } else if s[0] == b {
    } else {
        let rest = s.subrange(1, s.len() as int);
        lemma_find_pos(rest, b);
        assert forall|i: int| 0 <= i < find_pos(s, b) implies s[i] != b by {
            if i >= 1 {
                assert(s[i] == rest[i - 1]);
            }
        }
    }
}

/// If everything before `j` differs from `b` and `j` is the end or holds `b`,
/// then `j` is where the first occurrence is.
pub proof fn lemma_find_pos_is(s: Seq<u8>, b: u8, j: int)
    requires
        0 <= j <= s.len(),
        forall|i: int| 0 <= i < j ==> s[i] != b,
        j == s.len() || s[j] == b,
    ensures
        find_pos(s, b) == j,
    decreases s.len(),
{
    if s.len() == 0 {
    } else if s[0] == b {
    } else {
        lemma_find_pos_is(s.subrange(1, s.len() as int), b, j - 1);
    }
}

/// Index of the first whitespace byte in `s`, or `s.len()` if none.
pub open spec fn find_ws(s: Seq<u8>) -> int
    decreases s.len(),
{
    if s.len() == 0 {
        0
    } else if is_ws(s[0]) {
        0
    } else {
        1 + find_ws(s.subrange(1, s.len() as int))
    }
}

pub proof fn lemma_find_ws(s: Seq<u8>)
    ensures
        0 <= find_ws(s) <= s.len(),
        find_ws(s) < s.len() ==> is_ws(s[find_ws(s)]),
        forall|i: int| 0 <= i < find_ws(s) ==> !is_ws(s[i]),
    decreases s.len(),
{
    if s.len() == 0 {
    } else if is_ws(s[0]) {
    } else {
        let rest = s.subrange(1, s.len() as int);
        lemma_find_ws(rest);
        assert forall|i: int| 0 <= i < find_ws(s) implies !is_ws(s[i]) by {
            if i >= 1 {
                assert(s[i] == rest[i - 1]);
            }
        }
    }
}

pub proof fn lemma_find_ws_is(s: Seq<u8>, j: int)
    requires
        0 <= j <= s.len(),
        forall|i: int| 0 <= i < j ==> !is_ws(s[i]),
        j == s.len() || is_ws(s[j]),
    ensures
        find_ws(s) == j,
    decreases s.len(),
{
    if s.len() == 0 {
    } else if is_ws(s[0]) {
    } else {
        lemma_find_ws_is(s.subrange(1, s.len() as int), j - 1);
    }
}

/// The lines of the text, split at newline bytes, the final unterminated line
/// kept and a trailing newline adding no empty line.
pub open spec fn spec_lines(s: Seq<u8>) -> Seq<Seq<u8>>
    decreases s.len(),
    via spec_lines_decreases
{
    if s.len() == 0 {
        Seq::empty()
    } else {
        let e = find_pos(s, 10);
        if e == s.len() {
            seq![s]
        } else {
            seq![s.subrange(0, e)] + spec_lines(s.subrange(e + 1, s.len() as int))
        }
    }
}

#[via_fn]
proof fn spec_lines_decreases(s: Seq<u8>) {
    lemma_find_pos(s, 10);
}

/// The whitespace-separated tokens of a line, in order, none empty.
pub open spec fn spec_tokens(s: Seq<u8>) -> Seq<Seq<u8>>
    decreases s.len(),
    via spec_tokens_decreases
{
    if s.len() == 0 {
        Seq::empty()
    } else if is_ws(s[0]) {
        spec_tokens(s.subrange(1, s.len() as int))
    } else {
        let e = find_ws(s);
        seq![s.subrange(0, e)] + spec_tokens(s.subrange(e, s.len() as int))
    }
}

#[via_fn]
proof fn spec_tokens_decreases(s: Seq<u8>) {
    lemma_find_ws(s);
}

/// The fields of a face corner, split at `/`, empties kept.
pub open spec fn spec_fields(s: Seq<u8>) -> Seq<Seq<u8>>
    decreases s.len(),
    via spec_fields_decreases
{
    let p = find_pos(s, 47);
    if p == s.len() {
        seq![s]
    } else {
        seq![s.subrange(0, p)] + spec_fields(s.subrange(p + 1, s.len() as int))
    }
}

#[via_fn]
proof fn spec_fields_decreases(s: Seq<u8>) {
    lemma_find_pos(s, 47);
}

pub open spec fn all_digits(s: Seq<u8>) -> bool {
    forall|i: int| 0 <= i < s.len() ==> is_digit(s[i])
}

/// The value of a digit string, most significant first.
pub open spec fn digits_val(s: Seq<u8>) -> int
    decreases s.len(),
{
    if s.len() == 0 {
        0
    } else {
        digits_val(s.subrange(0, s.len() - 1)) * 10 + (s[s.len() - 1] - 48)
    }
}

pub open spec fn pow10(k: nat) -> int
    decreases k,
{
    if k == 0 {
        1
    } else {
        10 * pow10((k - 1) as nat)
    }
}

/// Splitting at a separator yields at least one field.
pub proof fn lemma_fields_nonempty(s: Seq<u8>)
    ensures
        spec_fields(s).len() >= 1,
{
    lemma_find_pos(s, 47);
}

/// A well-formed number token: an optional minus sign, a nonempty whole part,
/// and optionally a dot followed by a nonempty fraction, all digits.
pub open spec fn num_ok(s: Seq<u8>) -> bool {
    let body = if s.len() > 0 && s[0] == 45 {
        s.subrange(1, s.len() as int)
    } else {
        s
    };
    let d = find_pos(body, 46);
    if d == body.len() {
        body.len() > 0 && all_digits(body)
    } else {
        &&& 1 <= d
        &&& d + 1 < body.len()
        &&& all_digits(body.subrange(0, d))
        &&& all_digits(body.subrange(d + 1, body.len() as int))
    }
}

/// The whole part of a well-formed number token.
pub open spec fn num_int_part(s: Seq<u8>) -> int {
    let body = if s.len() > 0 && s[0] == 45 {
        s.subrange(1, s.len() as int)
    } else {
        s
    };
    let d = find_pos(body, 46);
    digits_val(body.subrange(0, d))
}

/// The fixed-point value of a well-formed number token: the whole part scaled
/// by `FX_ONE`, plus the floored contribution of the first six fraction
/// digits, the sign applied to that magnitude.
pub open spec fn num_val(s: Seq<u8>) -> int {
    let neg = s.len() > 0 && s[0] == 45;
    let body = if neg {
        s.subrange(1, s.len() as int)
    } else {
        s
    };
    let d = find_pos(body, 46);
    let frac = if d == body.len() {
        Seq::<u8>::empty()
    } else {
        body.subrange(d + 1, body.len() as int)
    };
    let fd = if frac.len() <= 6 {
        frac
    } else {
        frac.subrange(0, 6)
    };
    let mag = digits_val(body.subrange(0, d)) * FX_ONE + (digits_val(fd) * FX_ONE) / pow10(
        fd.len(),
    );
    if neg {
        -mag
    } else {
        mag
    }
}

/// A well-formed number whose whole part the loader accepts.
pub open spec fn num_in_range(s: Seq<u8>) -> bool {
    num_int_part(s) <= INT_LIMIT
}

/// A well-formed 1-based index token.
pub open spec fn idx_ok(s: Seq<u8>) -> bool {
    s.len() > 0 && all_digits(s) && 1 <= digits_val(s) <= INT_LIMIT
}

/// A well-formed face corner: one to three `/`-separated fields, the first a
/// vertex index, the others an index or empty.
pub open spec fn corner_ok(s: Seq<u8>) -> bool {
    let f = spec_fields(s);
    &&& 1 <= f.len() <= 3
    &&& idx_ok(f[0])
    &&& (f.len() < 2 || f[1].len() == 0 || idx_ok(f[1]))
    &&& (f.len() < 3 || f[2].len() == 0 || idx_ok(f[2]))
}

/// The corner's 0-based vertex index.
pub open spec fn corner_v(s: Seq<u8>) -> int {
    digits_val(spec_fields(s)[0]) - 1
}

/// Whether the corner carries a texture-coordinate reference.
pub open spec fn corner_has_vt(s: Seq<u8>) -> bool {
    let f = spec_fields(s);
    f.len() >= 2 && f[1].len() > 0
}

/// The corner's 0-based texture-coordinate index.
pub open spec fn corner_vt(s: Seq<u8>) -> int {
    digits_val(spec_fields(s)[1]) - 1
}

/// Fan triangulation: an n-gon becomes the n-2 triangles `(0, i, i+1)`.
pub open spec fn fan_triples(ids: Seq<usize>) -> Seq<(usize, usize, usize)> {
    Seq::new((ids.len() - 2) as nat, |i: int| (ids[0], ids[i + 1], ids[i + 2]))
}

/// What the loader has gathered so far: vertices, texture coordinates, and the
/// two triangle index lists.
pub struct ObjAcc {
    pub verts: Seq<Vertex3>,
    pub texs: Seq<TextureCoordinate>,
    pub vtris: Seq<(usize, usize, usize)>,
    pub ttris: Seq<(usize, usize, usize)>,
}

pub open spec fn obj_empty() -> ObjAcc {
    ObjAcc { verts: Seq::empty(), texs: Seq::empty(), vtris: Seq::empty(), ttris: Seq::empty() }
}

/// One `v` line: exactly three numbers, checked left to right.
pub open spec fn obj_vertex_line(t: Seq<Seq<u8>>, acc: ObjAcc) -> Result<ObjAcc, ParseError> {
    if t.len() != 4 {
        Err(ParseError::BadVertex)
    } else if !num_ok(t[1]) {
        Err(ParseError::BadVertex)
    } else if !num_in_range(t[1]) {
        Err(ParseError::NumberOutOfRange)
    } else if !num_ok(t[2]) {
        Err(ParseError::BadVertex)
    } else if !num_in_range(t[2]) {
        Err(ParseError::NumberOutOfRange)
    } else if !num_ok(t[3]) {
        Err(ParseError::BadVertex)
    } else if !num_in_range(t[3]) {
        Err(ParseError::NumberOutOfRange)
    } else {
        Ok(
            ObjAcc {
                verts: acc.verts.push(
                    Vertex3 {
                        x: num_val(t[1]) as i64,
                        y: num_val(t[2]) as i64,
                        z: num_val(t[3]) as i64,
                    },
                ),
                ..acc
            },
        )
    }
}

/// One `vt` line: exactly two numbers.
pub open spec fn obj_texcoord_line(t: Seq<Seq<u8>>, acc: ObjAcc) -> Result<ObjAcc, ParseError> {
    if t.len() != 3 {
        Err(ParseError::BadTexcoord)
    } else if !num_ok(t[1]) {
        Err(ParseError::BadTexcoord)
    } else if !num_in_range(t[1]) {
        Err(ParseError::NumberOutOfRange)
    } else if !num_ok(t[2]) {
        Err(ParseError::BadTexcoord)
    } else if !num_in_range(t[2]) {
        Err(ParseError::NumberOutOfRange)
    } else {
        Ok(
            ObjAcc {
                texs: acc.texs.push(
                    TextureCoordinate { u: num_val(t[1]) as i64, v: num_val(t[2]) as i64 },
                ),
                ..acc
            },
        )
    }
}

/// One `vn` line: every token must be a well-formed number; all are discarded.
pub open spec fn obj_normal_line(t: Seq<Seq<u8>>, acc: ObjAcc) -> Result<ObjAcc, ParseError> {
    if forall|i: int| 1 <= i < t.len() ==> num_ok(#[trigger] t[i]) {
        Ok(acc)
    } else {
        Err(ParseError::BadNormal)
    }
}

/// One `f` line: at least three well-formed corners, fan-triangulated; the
/// texture-coordinate triples are emitted only when every corner carries one.
pub open spec fn obj_face_line(t: Seq<Seq<u8>>, acc: ObjAcc) -> Result<ObjAcc, ParseError> {
    let n = t.len() - 1;
    if n < 3 {
        Err(ParseError::BadFace)
    } else if !(forall|i: int| 1 <= i < t.len() ==> corner_ok(#[trigger] t[i])) {
        Err(ParseError::BadFace)
    } else {
        let vids = Seq::new(n as nat, |i: int| corner_v(t[i + 1]) as usize);
        let new_vtris = acc.vtris + fan_triples(vids);
        if forall|i: int| 1 <= i < t.len() ==> corner_has_vt(#[trigger] t[i]) {
            let tids = Seq::new(n as nat, |i: int| corner_vt(t[i + 1]) as usize);
            Ok(ObjAcc { vtris: new_vtris, ttris: acc.ttris + fan_triples(tids), ..acc })
        } else {
            Ok(ObjAcc { vtris: new_vtris, ..acc })
        }
    }
}

/// One line of the resource: blank lines and unrecognized directives (among
/// them `#` comments) change nothing.
pub open spec fn obj_line(t: Seq<Seq<u8>>, acc: ObjAcc) -> Result<ObjAcc, ParseError> {
    if t.len() == 0 {
        Ok(acc)
    } else if t[0] == seq![118u8] {
        obj_vertex_line(t, acc)
    } else if t[0] == seq![118u8, 116u8] {
        obj_texcoord_line(t, acc)
    } else if t[0] == seq![118u8, 110u8] {
        obj_normal_line(t, acc)
    } else if t[0] == seq![102u8] {
        obj_face_line(t, acc)
    } else {
        Ok(acc)
    }
}

/// The lines folded in order; the first error aborts the whole load.
pub open spec fn obj_lines(lines: Seq<Seq<u8>>, acc: ObjAcc) -> Result<ObjAcc, ParseError>
    decreases lines.len(),
{
    if lines.len() == 0 {
        Ok(acc)
    } else {
        match obj_line(spec_tokens(lines[0]), acc) {
            Ok(a) => obj_lines(lines.subrange(1, lines.len() as int), a),
            Err(e) => Err(e),
        }
    }
}

/// Every stored triangle points into the lists it indexes.
pub open spec fn obj_indices_ok(acc: ObjAcc) -> bool {
    &&& forall|i: int|
        0 <= i < acc.vtris.len() ==> (#[trigger] acc.vtris[i]).0 < acc.verts.len()
            && acc.vtris[i].1 < acc.verts.len() && acc.vtris[i].2 < acc.verts.len()
    &&& forall|i: int|
        0 <= i < acc.ttris.len() ==> (#[trigger] acc.ttris[i]).0 < acc.texs.len()
            && acc.ttris[i].1 < acc.texs.len() && acc.ttris[i].2 < acc.texs.len()
}

/// The meaning of the whole resource: the lines folded from an empty mesh,
/// then the index-validity check of every triangle.
pub open spec fn obj_parse(text: Seq<u8>) -> Result<ObjAcc, ParseError> {
    match obj_lines(spec_lines(text), obj_empty()) {
        Ok(acc) => if obj_indices_ok(acc) {
            Ok(acc)
        } else {
            Err(ParseError::IndexOutOfBounds)
        },
        Err(e) => Err(e),
    }
}


/// Exec twin of `is_ws`.
fn ws_byte(b: u8) -> (r: bool)
    ensures
        r == is_ws(b),
{
    b == 32 || b == 9 || b == 13
}

/// Exec twin of `is_digit`.
fn digit_byte(b: u8) -> (r: bool)
    ensures
        r == is_digit(b),
{
    48 <= b && b <= 57
}

/// First position of `b` in `text[start..end]`, or `end` if none.
fn scan_to(text: &[u8], start: usize, end: usize, b: u8) -> (e: usize)
    requires
        start <= end <= text@.len(),
    ensures
        start <= e <= end,
        e - start == find_pos(text@.subrange(start as int, end as int), b),
        e < end ==> text@[e as int] == b,
        forall|k: int| start <= k < e ==> text@[k] != b,
{
    let mut j = start;
    while j < end && text[j] != b
        invariant
            start <= j <= end <= text@.len(),
            forall|k: int| start <= k < j ==> text@[k] != b,
        decreases end - j,
    {
        j = j + 1;
    }
    proof {
        let sub = text@.subrange(start as int, end as int);
        lemma_find_pos_is(sub, b, j - start);
    }
    j
}

/// Whether `text[s..e]` is exactly the keyword `kw`.
fn token_eq(text: &[u8], s: usize, e: usize, kw: &[u8]) -> (r: bool)
    requires
        s <= e <= text@.len(),
    ensures
        r == (text@.subrange(s as int, e as int) == kw@),
{
    let n = e - s;
    if n != kw.len() {
        proof {
            assert(text@.subrange(s as int, e as int).len() == n);
        }
        return false;
    }
    let mut k: usize = 0;
    while k < n
        invariant
            0 <= k <= n,
            n == e - s,
            s <= e <= text@.len(),
            n == kw@.len(),
            forall|i: int| 0 <= i < k ==> text@[s + i] == kw@[i],
        decreases n - k,
    {
        if text[s + k] != kw[k] {
            proof {
                assert(text@.subrange(s as int, e as int)[k as int] != kw@[k as int]);
            }
            return false;
        }
        k = k + 1;
    }
    proof {
        assert(text@.subrange(s as int, e as int) =~= kw@);
    }
    true
}

/// Exec twin of `pow10`, for the at most six fraction digits that count.
fn pow10_exec(k: usize) -> (r: i64)
    requires
        k <= 6,
    ensures
        r == pow10(k as nat),
        1 <= r <= 1000000,
{
    proof {
        assert(pow10(0) == 1);
        assert(pow10(1) == 10);
        assert(pow10(2) == 100);
        assert(pow10(3) == 1000);
        assert(pow10(4) == 10000);
        assert(pow10(5) == 100000);
        assert(pow10(6) == 1000000);
    }
    if k == 0 {
        1
    } else if k == 1 {
        10
    } else if k == 2 {
        100
    } else if k == 3 {
        1000
    } else if k == 4 {
        10000
    } else if k == 5 {
        100000
    } else {
        1000000
    }
}


/// The token ranges of `text[start..end]`, each range holding one token of
/// `spec_tokens` of that line, in order.
fn tokenize(text: &[u8], start: usize, end: usize) -> (toks: Vec<(usize, usize)>)
    requires
        start <= end <= text@.len(),
    ensures
        toks@.len() == spec_tokens(text@.subrange(start as int, end as int)).len(),
        forall|k: int|
            0 <= k < toks@.len() ==> start <= (#[trigger] toks@[k]).0 < toks@[k].1 <= end
                && text@.subrange(toks@[k].0 as int, toks@[k].1 as int) == spec_tokens(
                text@.subrange(start as int, end as int),
            )[k],
{
    let ghost line = text@.subrange(start as int, end as int);
    let mut toks: Vec<(usize, usize)> = Vec::new();
    let mut i = start;
    while i < end
        invariant
            start <= i <= end <= text@.len(),
            toks@.len() <= spec_tokens(line).len(),
            spec_tokens(text@.subrange(i as int, end as int)) == spec_tokens(line).subrange(
                toks@.len() as int,
                spec_tokens(line).len() as int,
            ),
            forall|k: int|
                0 <= k < toks@.len() ==> start <= (#[trigger] toks@[k]).0 < toks@[k].1 <= end
                    && text@.subrange(toks@[k].0 as int, toks@[k].1 as int) == spec_tokens(line)[k],
            line == text@.subrange(start as int, end as int),
        decreases end - i,
    {
        let ghost suf = text@.subrange(i as int, end as int);
        if ws_byte(text[i]) {
            proof {
                assert(suf[0] == text@[i as int]);
                assert(suf.subrange(1, suf.len() as int) =~= text@.subrange(
                    i as int + 1,
                    end as int,
                ));
            }
            i = i + 1;
        } else {
            let mut j = i + 1;
            while j < end && !ws_byte(text[j])
                invariant
                    i < j <= end <= text@.len(),
                    forall|k: int| i <= k < j ==> !is_ws(text@[k]),
                    !is_ws(text@[i as int]),
                decreases end - j,
            {
                j = j + 1;
            }
            proof {
                assert(suf[0] == text@[i as int]);
                assert forall|k: int| 0 <= k < j - i implies !is_ws(suf[k]) by {
                    assert(suf[k] == text@[i + k]);
                }
                lemma_find_ws_is(suf, j - i);
                assert(suf.subrange(0, j - i) =~= text@.subrange(i as int, j as int));
                assert(suf.subrange(j - i, suf.len() as int) =~= text@.subrange(
                    j as int,
                    end as int,
                ));
                let ts = spec_tokens(line);
                let n = toks@.len() as int;
                let tok = text@.subrange(i as int, j as int);
                let rest = spec_tokens(text@.subrange(j as int, end as int));
                assert(spec_tokens(suf) == seq![tok] + rest);
                assert(ts.subrange(n, ts.len() as int) == seq![tok] + rest);
                assert(ts.subrange(n, ts.len() as int).len() == (seq![tok] + rest).len());
                assert(ts.subrange(n, ts.len() as int).len() == ts.len() - n);
                assert(ts.len() - n == 1 + rest.len());
                assert(n < ts.len());
                assert(ts[n] == ts.subrange(n, ts.len() as int)[0]);
                assert(ts[n] == tok);
                assert forall|m: int| 0 <= m < rest.len() implies rest[m] == ts.subrange(
                    n + 1,
                    ts.len() as int,
                )[m] by {
                    assert(rest[m] == (seq![tok] + rest)[m + 1]);
                    assert(ts.subrange(n, ts.len() as int)[m + 1] == ts[n + 1 + m]);
                }
                assert(rest =~= ts.subrange(n + 1, ts.len() as int));
            }
            toks.push((i, j));
            i = j;
        }
    }
    proof {
        assert(text@.subrange(i as int, end as int).len() == 0);
        assert(spec_tokens(text@.subrange(i as int, end as int)).len() == 0);
    }
    toks
}

/// Reads the digit run beginning at `start`: where it ends, its value capped
/// at `INT_LIMIT`, and whether the cap was passed.
fn read_digits(text: &[u8], start: usize, end: usize) -> (r: (usize, i64, bool))
    requires
        start <= end <= text@.len(),
    ensures
        start <= r.0 <= end,
        forall|k: int| start <= k < r.0 ==> is_digit(text@[k]),
        r.0 < end ==> !is_digit(text@[r.0 as int]),
        !r.2 ==> r.1 == digits_val(text@.subrange(start as int, r.0 as int)) && 0 <= r.1
            <= INT_LIMIT,
        r.2 ==> digits_val(text@.subrange(start as int, r.0 as int)) > INT_LIMIT,
{
    let mut j = start;
    let mut acc: i64 = 0;
    let mut big = false;
    while j < end && digit_byte(text[j])
        invariant
            start <= j <= end <= text@.len(),
            forall|k: int| start <= k < j ==> is_digit(text@[k]),
            !big ==> acc == digits_val(text@.subrange(start as int, j as int)) && 0 <= acc
                <= INT_LIMIT,
            big ==> digits_val(text@.subrange(start as int, j as int)) > INT_LIMIT,
        decreases end - j,
    {
        let d = (text[j] - 48) as i64;
        let ghost run = text@.subrange(start as int, j as int);
        let ghost run2 = text@.subrange(start as int, j as int + 1);
        proof {
            assert(run2.subrange(0, run2.len() - 1) =~= run);
            assert(run2[run2.len() - 1] == text@[j as int]);
            assert(digits_val(run2) == digits_val(run) * 10 + (text@[j as int] - 48));
        }
        if !big {
            let t = acc * 10 + d;
            if t <= INT_LIMIT {
                acc = t;
            } else {
                big = true;
            }
        }
        j = j + 1;
    }
    (j, acc, big)
}


/// What a number token parsed to.
pub enum NumOut {
    /// A well-formed number in range, as a fixed-point value.
    Val(i64),
    /// Well-formed, but its whole part is over `INT_LIMIT`.
    TooLarge,
    /// Not a number of the grammar.
    Bad,
}

/// Parses `text[s..e]` as a signed decimal number into fixed point,
/// classifying it exactly as `num_ok` / `num_in_range` / `num_val` do.
#[verifier::rlimit(60)]
fn parse_number(text: &[u8], s: usize, e: usize) -> (r: NumOut)
    requires
        s <= e <= text@.len(),
    ensures
        ({
            let tok = text@.subrange(s as int, e as int);
            match r {
                NumOut::Val(v) => num_ok(tok) && num_in_range(tok) && v == num_val(tok)
                    && -0x200_0000_0000 <= v <= 0x200_0000_0000,
                NumOut::TooLarge => num_ok(tok) && !num_in_range(tok),
                NumOut::Bad => !num_ok(tok),
            }
        }),
{
    let ghost tok = text@.subrange(s as int, e as int);
    let mut i = s;
    let mut neg = false;
    if i < e && text[i] == 45 {
        neg = true;
        i = i + 1;
    }
    let ghost body = text@.subrange(i as int, e as int);
    proof {
        if neg {
            assert(tok[0] == 45);
            assert(body =~= tok.subrange(1, tok.len() as int));
        } else {
            assert(body =~= tok);
            if tok.len() > 0 {
                assert(tok[0] == text@[i as int]);
            }
        }
    }
    // The whole part.
    let (j, iv, big) = read_digits(text, i, e);
    proof {
        lemma_find_pos(body, 46);
    }
    let ghost d = find_pos(body, 46);
    if j == i {
        // Empty whole part: the token is malformed whatever follows.
        proof {
            if body.len() > 0 {
                assert(body[0] == text@[i as int]);
                assert(!is_digit(body[0]));
                assert(body[0] != 46 ==> d > 0 ==> !is_digit(body.subrange(0, d)[0]));
                if d == body.len() {
                    assert(!all_digits(body));
                } else if d > 0 {
                    assert(body.subrange(0, d)[0] == body[0]);
                    assert(!all_digits(body.subrange(0, d)));
                }
            }
        }
        return NumOut::Bad;
    }
    proof {
        assert forall|k: int| 0 <= k < j - i implies is_digit(body[k]) by {
            assert(body[k] == text@[i + k]);
        }
    }
    if j == e {
        // No fraction: every byte of the body is a digit.
        proof {
            assert forall|k: int| 0 <= k < body.len() implies body[k] != 46 by {
                assert(is_digit(body[k]));
            }
            lemma_find_pos_is(body, 46, body.len() as int);
            assert(all_digits(body));
            assert(body.subrange(0, d) =~= text@.subrange(i as int, j as int));
        }
        if big {
            return NumOut::TooLarge;
        }
        let v = iv * FX_ONE;
        proof {
            assert(digits_val(Seq::<u8>::empty()) == 0);
            assert(pow10(0nat) == 1);
            assert(0int * (FX_ONE as int) == 0) by (nonlinear_arith);
            assert(0int / 1int == 0);
            assert(num_val(tok) == digits_val(body.subrange(0, d)) * FX_ONE + 0 || num_val(tok)
                == -(digits_val(body.subrange(0, d)) * FX_ONE + 0));
        }
        if neg {
            return NumOut::Val(-v);
        }
        return NumOut::Val(v);
    }
    if text[j] != 46 {
        // A byte that is neither digit nor dot: malformed.
        proof {
            assert(body[j - i] == text@[j as int]);
            assert(!is_digit(body[j - i]) && body[j - i] != 46);
            if d == body.len() {
                assert(!all_digits(body));
            } else {
                assert(d != j - i);
                if d > j - i {
                    assert(body.subrange(0, d)[j - i] == body[j - i]);
                    assert(!all_digits(body.subrange(0, d)));
                } else {
                    assert(body[d] == 46);
                    assert(is_digit(body[d]));
                }
            }
        }
        return NumOut::Bad;
    }
    // The dot sits at `j`; the first occurrence, since digits precede it.
    proof {
        assert(body[j - i] == 46);
        assert forall|k: int| 0 <= k < j - i implies body[k] != 46 by {
            assert(is_digit(body[k]));
        }
        lemma_find_pos_is(body, 46, j - i);
        assert(body.subrange(0, d) =~= text@.subrange(i as int, j as int));
        assert(all_digits(body.subrange(0, d)));
    }
    // The fraction: all digits to the end, the first six carrying value.
    let mut k = j + 1;
    let mut fv: i64 = 0;
    let mut cnt: usize = 0;
    while k < e && digit_byte(text[k])
        invariant
            j + 1 <= k <= e <= text@.len(),
            forall|m: int| j + 1 <= m < k ==> is_digit(text@[m]),
            cnt == if k - (j + 1) <= 6 {
                k - (j + 1)
            } else {
                6int
            },
            fv == digits_val(text@.subrange(j as int + 1, j + 1 + cnt as int)),
            0 <= fv < pow10(cnt as nat),
            fv <= 999999,
        decreases e - k,
    {
        proof {
            assert(pow10(0nat) == 1);
            assert(pow10(1nat) == 10);
            assert(pow10(2nat) == 100);
            assert(pow10(3nat) == 1000);
            assert(pow10(4nat) == 10000);
            assert(pow10(5nat) == 100000);
            assert(pow10(6nat) == 1000000);
        }
        if cnt < 6 {
            let ghost run = text@.subrange(j as int + 1, j + 1 + cnt as int);
            let ghost run2 = text@.subrange(j as int + 1, j + 2 + cnt as int);
            proof {
                assert(run2.subrange(0, run2.len() - 1) =~= run);
                assert(run2[run2.len() - 1] == text@[j + 1 + cnt as int]);
            }
            fv = fv * 10 + (text[k] - 48) as i64;
            cnt = cnt + 1;
        }
        k = k + 1;
    }
    let ghost frac = body.subrange(d + 1, body.len() as int);
    proof {
        assert(frac =~= text@.subrange(j as int + 1, e as int));
    }
    if k < e {
        // A non-digit inside the fraction: malformed.
        proof {
            assert(frac[k - (j + 1)] == text@[k as int]);
            assert(!all_digits(frac));
        }
        return NumOut::Bad;
    }
    if k == j + 1 {
        // An empty fraction after the dot: malformed.
        proof {
            assert(d + 1 == body.len());
        }
        return NumOut::Bad;
    }
    proof {
        assert forall|m: int| 0 <= m < frac.len() implies is_digit(frac[m]) by {
            assert(frac[m] == text@[j + 1 + m]);
        }
        assert(num_ok(tok));
    }
    if big {
        return NumOut::TooLarge;
    }
    let p = pow10_exec(cnt);
    let ghost fd = if frac.len() <= 6 {
        frac
    } else {
        frac.subrange(0, 6)
    };
    proof {
        assert(fd =~= text@.subrange(j as int + 1, j + 1 + cnt as int));
        assert(fd.len() == cnt);
        assert(digits_val(fd) == fv);
        assert(fv * FX_ONE >= 0) by (nonlinear_arith)
            requires
                fv >= 0,
        ;
        assert(fv * FX_ONE <= 999999 * 65536) by (nonlinear_arith)
            requires
                0 <= fv <= 999999,
        ;
    }
    let fpart = (fv * FX_ONE) / p;
    let v = iv * FX_ONE + fpart;
    proof {
        assert(fpart == fv * FX_ONE / p as int);
        vstd::arithmetic::div_mod::lemma_div_is_ordered(0, fv * FX_ONE, p as int);
        assert(0int / p as int == 0);
        assert(num_val(tok) == if tok.len() > 0 && tok[0] == 45 {
            -(digits_val(body.subrange(0, d)) * FX_ONE + (digits_val(fd) * FX_ONE) / pow10(
                fd.len(),
            ))
        } else {
            digits_val(body.subrange(0, d)) * FX_ONE + (digits_val(fd) * FX_ONE) / pow10(fd.len())
        });
        vstd::arithmetic::div_mod::lemma_div_is_ordered(fv * FX_ONE, 999999int * 65536int, p as int);
        assert(v == digits_val(body.subrange(0, d)) * FX_ONE + (digits_val(fd) * FX_ONE) / pow10(
            fd.len(),
        ));
    }
    if neg {
        return NumOut::Val(-v);
    }
    NumOut::Val(v)
}

/// Parses `text[s..e]` as a 1-based index, returning it 0-based.
fn parse_index(text: &[u8], s: usize, e: usize) -> (r: Option<usize>)
    requires
        s <= e <= text@.len(),
    ensures
        ({
            let tok = text@.subrange(s as int, e as int);
            match r {
                Some(ix) => idx_ok(tok) && ix as int == digits_val(tok) - 1 && ix < INT_LIMIT,
                None => !idx_ok(tok),
            }
        }),
{
    let ghost tok = text@.subrange(s as int, e as int);
    if s == e {
        return None;
    }
    let (j, v, big) = read_digits(text, s, e);
    if j < e {
        proof {
            assert(tok[j - s] == text@[j as int]);
            assert(!all_digits(tok));
        }
        return None;
    }
    proof {
        assert(tok =~= text@.subrange(s as int, j as int));
        assert forall|k: int| 0 <= k < tok.len() implies is_digit(tok[k]) by {
            assert(tok[k] == text@[s + k]);
        }
    }
    if big {
        return None;
    }
    if v < 1 {
        return None;
    }
    Some((v - 1) as usize)
}

/// Parses a face corner `v`, `v/vt`, `v//vn`, or `v/vt/vn`: the 0-based vertex
/// index, and the 0-based texture-coordinate index where the corner has one.
fn parse_corner(text: &[u8], s: usize, e: usize) -> (r: Option<(usize, Option<usize>)>)
    requires
        s <= e <= text@.len(),
    ensures
        ({
            let tok = text@.subrange(s as int, e as int);
            match r {
                Some(c) => corner_ok(tok) && c.0 as int == corner_v(tok) && c.0 < INT_LIMIT && (
                match c.1 {
                    Some(t) => corner_has_vt(tok) && t as int == corner_vt(tok) && t < INT_LIMIT,
                    None => !corner_has_vt(tok),
                }),
                None => !corner_ok(tok),
            }
        }),
{
    let ghost tok = text@.subrange(s as int, e as int);
    let p1 = scan_to(text, s, e, 47);
    if p1 == e {
        // A single field.
        proof {
            lemma_find_pos_is(tok, 47, tok.len() as int);
            assert(spec_fields(tok) == seq![tok]);
            assert(spec_fields(tok)[0] == tok);
        }
        match parse_index(text, s, e) {
            Some(ix) => {
                return Some((ix, None));
            },
            None => {
                return None;
            },
        }
    }
    proof {
        assert forall|k: int| 0 <= k < p1 - s implies tok[k] != 47 by {
            assert(tok[k] == text@[s + k]);
        }
        lemma_find_pos_is(tok, 47, p1 - s);
        assert(tok.subrange(0, p1 - s) =~= text@.subrange(s as int, p1 as int));
        assert(tok.subrange(p1 - s + 1, tok.len() as int) =~= text@.subrange(
            p1 as int + 1,
            e as int,
        ));
    }
    let ghost rest1 = text@.subrange(p1 as int + 1, e as int);
    let p2 = scan_to(text, p1 + 1, e, 47);
    if p2 == e {
        // Two fields.
        proof {
            lemma_find_pos_is(rest1, 47, rest1.len() as int);
            assert(spec_fields(rest1) == seq![rest1]);
            assert(spec_fields(tok) == seq![text@.subrange(s as int, p1 as int)] + seq![rest1]);
            assert(spec_fields(tok).len() == 2);
            assert(spec_fields(tok)[0] == text@.subrange(s as int, p1 as int));
            assert(spec_fields(tok)[1] == rest1);
        }
        let vix = match parse_index(text, s, p1) {
            Some(ix) => ix,
            None => {
                return None;
            },
        };
        if p1 + 1 == e {
            proof {
                assert(rest1.len() == 0);
            }
            return Some((vix, None));
        }
        match parse_index(text, p1 + 1, e) {
            Some(t) => {
                return Some((vix, Some(t)));
            },
            None => {
                return None;
            },
        }
    }
    // Three or more fields: a fourth is malformed.
    proof {
        assert forall|k: int| 0 <= k < p2 - (p1 + 1) implies rest1[k] != 47 by {
            assert(rest1[k] == text@[p1 + 1 + k]);
        }
        lemma_find_pos_is(rest1, 47, p2 - (p1 + 1));
        assert(rest1.subrange(0, p2 - (p1 + 1)) =~= text@.subrange(p1 as int + 1, p2 as int));
        assert(rest1.subrange(p2 - (p1 + 1) + 1, rest1.len() as int) =~= text@.subrange(
            p2 as int + 1,
            e as int,
        ));
    }
    let ghost rest2 = text@.subrange(p2 as int + 1, e as int);
    let p3 = scan_to(text, p2 + 1, e, 47);
    if p3 < e {
        proof {
            assert forall|k: int| 0 <= k < p3 - (p2 + 1) implies rest2[k] != 47 by {
                assert(rest2[k] == text@[p2 + 1 + k]);
            }
            assert(rest2[p3 - (p2 + 1)] == text@[p3 as int]);
            lemma_find_pos_is(rest2, 47, p3 - (p2 + 1));
            lemma_fields_nonempty(rest2.subrange(p3 - (p2 + 1) + 1, rest2.len() as int));
            assert(spec_fields(rest2) == seq![rest2.subrange(0, p3 - (p2 + 1))] + spec_fields(
                rest2.subrange(p3 - (p2 + 1) + 1, rest2.len() as int),
            ));
            assert(spec_fields(rest2).len() >= 2);
            assert(spec_fields(rest1) == seq![text@.subrange(p1 as int + 1, p2 as int)]
                + spec_fields(rest2));
            assert(spec_fields(tok) == seq![text@.subrange(s as int, p1 as int)] + spec_fields(
                rest1,
            ));
            assert(spec_fields(tok).len() >= 4);
        }
        return None;
    }
    proof {
        lemma_find_pos_is(rest2, 47, rest2.len() as int);
        assert(spec_fields(rest2) == seq![rest2]);
        assert(spec_fields(rest1) == seq![text@.subrange(p1 as int + 1, p2 as int)] + seq![rest2]);
        assert(spec_fields(tok) == seq![text@.subrange(s as int, p1 as int)] + spec_fields(rest1));
        assert(spec_fields(tok).len() == 3);
        assert(spec_fields(tok)[0] == text@.subrange(s as int, p1 as int));
        assert(spec_fields(tok)[1] == text@.subrange(p1 as int + 1, p2 as int));
        assert(spec_fields(tok)[2] == rest2);
    }
    let vix = match parse_index(text, s, p1) {
        Some(ix) => ix,
        None => {
            return None;
        },
    };
    let ovt = if p1 + 1 == p2 {
        None
    } else {
        match parse_index(text, p1 + 1, p2) {
            Some(t) => Some(t),
            None => {
                return None;
            },
        }
    };
    if p2 + 1 < e {
        match parse_index(text, p2 + 1, e) {
            Some(_n) => (),
            None => {
                return None;
            },
        }
    }
    proof {
        if p1 + 1 == p2 {
            assert(text@.subrange(p1 as int + 1, p2 as int).len() == 0);
        }
        if p2 + 1 == e {
            assert(rest2.len() == 0);
        }
    }
    Some((vix, ovt))
}


/// The accumulator a set of exec lists stands for.
pub open spec fn acc_of(
    verts: Seq<Vertex3>,
    texs: Seq<TextureCoordinate>,
    vtris: Seq<(usize, usize, usize)>,
    ttris: Seq<(usize, usize, usize)>,
) -> ObjAcc {
    ObjAcc { verts, texs, vtris, ttris }
}

/// Applies one line of the resource to the growing mesh, exactly as
/// `obj_line` says.
#[verifier::rlimit(80)]
#[verifier::loop_isolation(false)]
fn apply_line(
    text: &[u8],
    ls: usize,
    le: usize,
    verts: &mut Vec<Vertex3>,
    texs: &mut Vec<TextureCoordinate>,
    vtris: &mut Vec<(usize, usize, usize)>,
    ttris: &mut Vec<(usize, usize, usize)>,
) -> (r: Result<(), ParseError>)
    requires
        ls <= le <= text@.len(),
    ensures
        ({
            let toks = spec_tokens(text@.subrange(ls as int, le as int));
            let before = acc_of(old(verts)@, old(texs)@, old(vtris)@, old(ttris)@);
            let after = acc_of(final(verts)@, final(texs)@, final(vtris)@, final(ttris)@);
            match r {
                Ok(_) => obj_line(toks, before) == Ok::<ObjAcc, ParseError>(after),
                Err(e) => obj_line(toks, before) == Err::<ObjAcc, ParseError>(e),
            }
        }),
{
    let ghost line = text@.subrange(ls as int, le as int);
    let ghost t = spec_tokens(line);
    let ghost before = acc_of(verts@, texs@, vtris@, ttris@);
    let toks = tokenize(text, ls, le);
    if toks.len() == 0 {
        return Ok(());
    }
    let first = toks[0];
    let flen = first.1 - first.0;
    let ghost t0 = t[0];
    proof {
        assert(t0 == text@.subrange(first.0 as int, first.1 as int));
        assert(t0.len() == flen);
    }
    if flen == 1 && text[first.0] == 118 {
        // A `v` line: exactly three numbers become a vertex.
        proof {
            assert(t0[0] == text@[first.0 as int]);
            assert(t0 =~= seq![118u8]);
        }
        if toks.len() != 4 {
            return Err(ParseError::BadVertex);
        }
        let c1 = toks[1];
        let x = match parse_number(text, c1.0, c1.1) {
            NumOut::Val(v) => v,
            NumOut::TooLarge => { return Err(ParseError::NumberOutOfRange); },
            NumOut::Bad => { return Err(ParseError::BadVertex); },
        };
        let c2 = toks[2];
        let y = match parse_number(text, c2.0, c2.1) {
            NumOut::Val(v) => v,
            NumOut::TooLarge => { return Err(ParseError::NumberOutOfRange); },
            NumOut::Bad => { return Err(ParseError::BadVertex); },
        };
        let c3 = toks[3];
        let z = match parse_number(text, c3.0, c3.1) {
            NumOut::Val(v) => v,
            NumOut::TooLarge => { return Err(ParseError::NumberOutOfRange); },
            NumOut::Bad => { return Err(ParseError::BadVertex); },
        };
        verts.push(Vertex3 { x, y, z });
        return Ok(());
    }
    if flen == 2 && text[first.0] == 118 && text[first.0 + 1] == 116 {
        // A `vt` line: exactly two numbers become a texture coordinate.
        proof {
            assert(t0[0] == text@[first.0 as int]);
            assert(t0[1] == text@[first.0 as int + 1]);
            assert(t0 =~= seq![118u8, 116u8]);
        }
        if toks.len() != 3 {
            return Err(ParseError::BadTexcoord);
        }
        let c1 = toks[1];
        let u = match parse_number(text, c1.0, c1.1) {
            NumOut::Val(v) => v,
            NumOut::TooLarge => { return Err(ParseError::NumberOutOfRange); },
            NumOut::Bad => { return Err(ParseError::BadTexcoord); },
        };
        let c2 = toks[2];
        let v = match parse_number(text, c2.0, c2.1) {
            NumOut::Val(w) => w,
            NumOut::TooLarge => { return Err(ParseError::NumberOutOfRange); },
            NumOut::Bad => { return Err(ParseError::BadTexcoord); },
        };
        texs.push(TextureCoordinate { u, v });
        return Ok(());
    }
    if flen == 2 && text[first.0] == 118 && text[first.0 + 1] == 110 {
        // A `vn` line: the numbers are checked and discarded.
        proof {
            assert(t0[0] == text@[first.0 as int]);
            assert(t0[1] == text@[first.0 as int + 1]);
            assert(t0 =~= seq![118u8, 110u8]);
            assert(seq![118u8, 116u8][1] == 116u8);
            assert(t0 != seq![118u8, 116u8]);
        }
        let mut i: usize = 1;
        while i < toks.len()
            invariant
                1 <= i <= toks@.len(),
                toks@.len() == t.len(),
                ls <= le <= text@.len(),
                forall|k: int|
                    0 <= k < toks@.len() ==> ls <= (#[trigger] toks@[k]).0 < toks@[k].1 <= le
                        && text@.subrange(toks@[k].0 as int, toks@[k].1 as int) == t[k],
                forall|k: int| 1 <= k < i ==> num_ok(#[trigger] t[k]),
            decreases toks@.len() - i,
        {
            let c = toks[i];
            match parse_number(text, c.0, c.1) {
                NumOut::Val(_) => (),
                NumOut::TooLarge => (),
                NumOut::Bad => { return Err(ParseError::BadNormal); },
            }
            i = i + 1;
        }
        return Ok(());
    }
    if flen == 1 && text[first.0] == 102 {
        // An `f` line: the corners are fan-triangulated.
        proof {
            assert(t0[0] == text@[first.0 as int]);
            assert(t0 =~= seq![102u8]);
            assert(seq![118u8][0] == 118u8);
            assert(t0 != seq![118u8]);
        }
        if toks.len() < 4 {
            return Err(ParseError::BadFace);
        }
        let n = toks.len() - 1;
        let mut vids: Vec<usize> = Vec::new();
        let mut tids: Vec<usize> = Vec::new();
        let mut all_vt = true;
        let mut i: usize = 1;
        while i < toks.len()
            invariant
                1 <= i <= toks@.len(),
                toks@.len() == t.len(),
                n == toks@.len() - 1,
                ls <= le <= text@.len(),
                forall|k: int|
                    0 <= k < toks@.len() ==> ls <= (#[trigger] toks@[k]).0 < toks@[k].1 <= le
                        && text@.subrange(toks@[k].0 as int, toks@[k].1 as int) == t[k],
                forall|k: int| 1 <= k < i ==> corner_ok(#[trigger] t[k]),
                vids@.len() == i - 1,
                forall|k: int| 0 <= k < i - 1 ==> vids@[k] as int == corner_v(t[k + 1]),
                all_vt == (forall|k: int| 1 <= k < i ==> corner_has_vt(#[trigger] t[k])),
                all_vt ==> tids@.len() == i - 1 && (forall|k: int|
                    0 <= k < i - 1 ==> tids@[k] as int == corner_vt(t[k + 1])),
            decreases toks@.len() - i,
        {
            let c = toks[i];
            match parse_corner(text, c.0, c.1) {
                Some(corner) => {
                    vids.push(corner.0);
                    match corner.1 {
                        Some(tix) => {
                            tids.push(tix);
                        },
                        None => {
                            all_vt = false;
                        },
                    }
                },
                None => { return Err(ParseError::BadFace); },
            }
            i = i + 1;
        }
        let ghost svids = Seq::new(n as nat, |k: int| corner_v(t[k + 1]) as usize);
        let ghost stids = Seq::new(n as nat, |k: int| corner_vt(t[k + 1]) as usize);
        proof {
            assert(vids@ =~= svids);
            if all_vt {
                assert(tids@ =~= stids);
            }
        }
        let ghost vtris0 = vtris@;
        let mut k: usize = 0;
        while k < n - 2
            invariant
                0 <= k <= n - 2,
                3 <= n,
                vids@.len() == n,
                vtris@ == vtris0 + fan_triples(vids@).subrange(0, k as int),
            decreases n - 2 - k,
        {
            proof {
                assert(fan_triples(vids@)[k as int] == (vids@[0], vids@[k + 1], vids@[k + 2]));
            }
            vtris.push((vids[0], vids[k + 1], vids[k + 2]));
            proof {
                assert(vtris@ =~= vtris0 + fan_triples(vids@).subrange(0, k + 1));
            }
            k = k + 1;
        }
        proof {
            assert(fan_triples(vids@).subrange(0, n - 2) =~= fan_triples(svids));
        }
        if all_vt {
            let ghost ttris0 = ttris@;
            let mut k2: usize = 0;
            while k2 < n - 2
                invariant
                    0 <= k2 <= n - 2,
                    3 <= n,
                    tids@.len() == n,
                    ttris@ == ttris0 + fan_triples(tids@).subrange(0, k2 as int),
                decreases n - 2 - k2,
            {
                proof {
                    assert(fan_triples(tids@)[k2 as int] == (
                        tids@[0],
                        tids@[k2 + 1],
                        tids@[k2 + 2],
                    ));
                }
                ttris.push((tids[0], tids[k2 + 1], tids[k2 + 2]));
                proof {
                    assert(ttris@ =~= ttris0 + fan_triples(tids@).subrange(0, k2 + 1));
                }
                k2 = k2 + 1;
            }
            proof {
                assert(fan_triples(tids@).subrange(0, n - 2) =~= fan_triples(stids));
            }
        }
        return Ok(());
    }
    // Any other leading token is ignored.
    proof {
        assert(t0.len() == flen);
        assert(t0[0] == text@[first.0 as int]);
        assert(seq![118u8].len() == 1);
        assert(seq![118u8][0] == 118u8);
        assert(seq![102u8].len() == 1);
        assert(seq![102u8][0] == 102u8);
        assert(seq![118u8, 116u8].len() == 2);
        assert(seq![118u8, 116u8][0] == 118u8);
        assert(seq![118u8, 116u8][1] == 116u8);
        assert(seq![118u8, 110u8].len() == 2);
        assert(seq![118u8, 110u8][0] == 118u8);
        assert(seq![118u8, 110u8][1] == 110u8);
        if flen == 2 {
            assert(t0[1] == text@[first.0 as int + 1]);
        }
        assert(t0 != seq![118u8]);
        assert(t0 != seq![102u8]);
        assert(t0 != seq![118u8, 116u8]);
        assert(t0 != seq![118u8, 110u8]);
    }
    Ok(())
}


impl Mesh {
    /// Loads a mesh from an OBJ-subset text resource, scanning line by line:
    /// the result is exactly what `obj_parse` says of the bytes, the whole
    /// load failing on the first malformed record.
    #[verifier::rlimit(60)]
    #[verifier::loop_isolation(false)]
    pub fn from_text(text: &[u8]) -> (r: Result<Mesh, ParseError>)
        ensures
            match r {
                Ok(m) => obj_parse(text@) == Ok::<ObjAcc, ParseError>(
                    acc_of(
                        m.vertices@,
                        m.texture_coordinates@,
                        m.vertex_indices@,
                        m.texture_coordinate_indices@,
                    ),
                ) && obj_indices_ok(
                    acc_of(
                        m.vertices@,
                        m.texture_coordinates@,
                        m.vertex_indices@,
                        m.texture_coordinate_indices@,
                    ),
                ),
                Err(e) => obj_parse(text@) == Err::<ObjAcc, ParseError>(e),
            },
    {
        let ghost all_lines = spec_lines(text@);
        let mut verts: Vec<Vertex3> = Vec::new();
        let mut texs: Vec<TextureCoordinate> = Vec::new();
        let mut vtris: Vec<(usize, usize, usize)> = Vec::new();
        let mut ttris: Vec<(usize, usize, usize)> = Vec::new();
        let n = text.len();
        let mut pos: usize = 0;
        proof {
            assert(text@.subrange(0, n as int) =~= text@);
            assert(verts@ =~= Seq::<Vertex3>::empty());
            assert(texs@ =~= Seq::<TextureCoordinate>::empty());
            assert(vtris@ =~= Seq::<(usize, usize, usize)>::empty());
            assert(ttris@ =~= Seq::<(usize, usize, usize)>::empty());
            assert(acc_of(verts@, texs@, vtris@, ttris@) == obj_empty());
        }
        while pos < n
            invariant
                pos <= n,
                obj_lines(all_lines, obj_empty()) == obj_lines(
                    spec_lines(text@.subrange(pos as int, n as int)),
                    acc_of(verts@, texs@, vtris@, ttris@),
                ),
            decreases n - pos,
        {
            let ghost suf = text@.subrange(pos as int, n as int);
            let ghost acc0 = acc_of(verts@, texs@, vtris@, ttris@);
            let le = scan_to(text, pos, n, 10);
            let ghost line = text@.subrange(pos as int, le as int);
            proof {
                assert(suf.len() > 0);
                if le == n {
                    assert(line =~= suf);
                    assert(spec_lines(suf) == seq![suf]);
                    assert(spec_lines(suf)[0] == line);
                    assert(spec_lines(suf).subrange(1, 1) =~= Seq::<Seq<u8>>::empty());
                } else {
                    assert(suf.subrange(0, le - pos) =~= line);
                    assert(suf.subrange(le - pos + 1, suf.len() as int) =~= text@.subrange(
                        le as int + 1,
                        n as int,
                    ));
                    assert(spec_lines(suf) == seq![line] + spec_lines(
                        text@.subrange(le as int + 1, n as int),
                    ));
                    assert(spec_lines(suf)[0] == line);
                    assert(spec_lines(suf).subrange(1, spec_lines(suf).len() as int)
                        =~= spec_lines(text@.subrange(le as int + 1, n as int)));
                }
            }
            match apply_line(text, pos, le, &mut verts, &mut texs, &mut vtris, &mut ttris) {
                Ok(_) => (),
                Err(e) => {
                    proof {
                        assert(obj_lines(spec_lines(suf), acc0) == Err::<ObjAcc, ParseError>(e));
                    }
                    return Err(e);
                },
            }
            if le < n {
                pos = le + 1;
            } else {
                pos = n;
                proof {
                    assert(spec_lines(text@.subrange(pos as int, n as int)).len() == 0);
                }
            }
        }
        proof {
            assert(text@.subrange(pos as int, n as int).len() == 0);
            assert(spec_lines(text@.subrange(pos as int, n as int)).len() == 0);
        }
        let ghost acc = acc_of(verts@, texs@, vtris@, ttris@);
        // The load-time index check: every triangle must point into its list.
        let nv = verts.len();
        let nt = texs.len();
        let mut i: usize = 0;
        while i < vtris.len()
            invariant
                i <= vtris@.len(),
                forall|k: int|
                    0 <= k < i ==> (#[trigger] vtris@[k]).0 < nv && vtris@[k].1 < nv
                        && vtris@[k].2 < nv,
                nv == verts@.len(),
            decreases vtris@.len() - i,
        {
            let t = vtris[i];
            if t.0 >= nv || t.1 >= nv || t.2 >= nv {
                proof {
                    let bad = acc.vtris[i as int];
                    assert(bad.0 >= acc.verts.len() || bad.1 >= acc.verts.len() || bad.2
                        >= acc.verts.len());
                    assert(!obj_indices_ok(acc));
                }
                return Err(ParseError::IndexOutOfBounds);
            }
            i = i + 1;
        }
        let mut j: usize = 0;
        while j < ttris.len()
            invariant
                j <= ttris@.len(),
                forall|k: int|
                    0 <= k < j ==> (#[trigger] ttris@[k]).0 < nt && ttris@[k].1 < nt
                        && ttris@[k].2 < nt,
                nt == texs@.len(),
            decreases ttris@.len() - j,
        {
            let t = ttris[j];
            if t.0 >= nt || t.1 >= nt || t.2 >= nt {
                proof {
                    let bad = acc.ttris[j as int];
                    assert(bad.0 >= acc.texs.len() || bad.1 >= acc.texs.len() || bad.2
                        >= acc.texs.len());
                    assert(!obj_indices_ok(acc));
                }
                return Err(ParseError::IndexOutOfBounds);
            }
            j = j + 1;
        }
        Ok(Mesh { vertices: verts, texture_coordinates: texs, vertex_indices: vtris, texture_coordinate_indices: ttris })
    }
}


/// A line that reads `v x y z` with three well-formed, in-range numbers.
pub open spec fn is_vertex_record(l: Seq<u8>) -> bool {
    let t = spec_tokens(l);
    &&& t.len() == 4
    &&& t[0] == seq![118u8]
    &&& num_ok(t[1]) && num_in_range(t[1])
    &&& num_ok(t[2]) && num_in_range(t[2])
    &&& num_ok(t[3]) && num_in_range(t[3])
}

/// A line that reads `f a b c d` with four well-formed corners, none carrying
/// a texture-coordinate reference.
pub open spec fn is_plain_quad_record(l: Seq<u8>) -> bool {
    let t = spec_tokens(l);
    &&& t.len() == 5
    &&& t[0] == seq![102u8]
    &&& forall|i: int| 1 <= i < 5 ==> corner_ok(#[trigger] t[i]) && !corner_has_vt(t[i])
}

/// A line the loader passes over whole: blank, or led by an unrecognized
/// directive (among them `#` comments).
pub open spec fn is_skip_record(l: Seq<u8>) -> bool {
    let t = spec_tokens(l);
    t.len() == 0 || (t[0] != seq![118u8] && t[0] != seq![118u8, 116u8] && t[0] != seq![
        118u8,
        110u8,
    ] && t[0] != seq![102u8])
}

/// How many of the lines are vertex records.
pub open spec fn vertex_record_count(lines: Seq<Seq<u8>>) -> int
    decreases lines.len(),
{
    if lines.len() == 0 {
        0
    } else {
        (if is_vertex_record(lines[0]) {
            1int
        } else {
            0int
        }) + vertex_record_count(lines.subrange(1, lines.len() as int))
    }
}

/// The OBJ round trip: a resource of N vertex lines and one final quad face
/// line, with blank, comment, or unrecognized lines freely interleaved, loads
/// to exactly N more vertices, and exactly the quad's two fan triangles
/// `(i0, i1, i2)` and `(i0, i2, i3)` are appended; nothing else changes.
pub proof fn lemma_obj_quad_fan(lines: Seq<Seq<u8>>, acc: ObjAcc)
    requires
        lines.len() >= 1,
        forall|k: int|
            0 <= k < lines.len() - 1 ==> is_vertex_record(#[trigger] lines[k]) || is_skip_record(
                lines[k],
            ),
        is_plain_quad_record(lines[lines.len() - 1]),
    ensures
        ({
            let ft = spec_tokens(lines[lines.len() - 1]);
            let quad = seq![
                (
                    corner_v(ft[1]) as usize,
                    corner_v(ft[2]) as usize,
                    corner_v(ft[3]) as usize,
                ),
                (
                    corner_v(ft[1]) as usize,
                    corner_v(ft[3]) as usize,
                    corner_v(ft[4]) as usize,
                ),
            ];
            match obj_lines(lines, acc) {
                Ok(res) => res.verts.len() == acc.verts.len() + vertex_record_count(
                    lines.subrange(0, lines.len() - 1),
                ) && res.texs == acc.texs && res.ttris == acc.ttris && res.vtris == acc.vtris
                    + quad,
                Err(_) => false,
            }
        }),
    decreases lines.len(),
{
    let t = spec_tokens(lines[0]);
    assert(seq![118u8].len() == 1);
    assert(seq![118u8][0] == 118u8);
    assert(seq![102u8].len() == 1);
    assert(seq![102u8][0] == 102u8);
    assert(seq![118u8, 116u8].len() == 2);
    assert(seq![118u8, 110u8].len() == 2);
    if lines.len() == 1 {
        let ft = spec_tokens(lines[0]);
        assert(ft[0] != seq![118u8]);
        assert(ft[0] != seq![118u8, 116u8]);
        assert(ft[0] != seq![118u8, 110u8]);
        assert(corner_ok(ft[1]) && !corner_has_vt(ft[1]));
        assert(!(forall|i: int| 1 <= i < ft.len() ==> corner_has_vt(#[trigger] ft[i])));
        let vids = Seq::new((ft.len() - 1) as nat, |i: int| corner_v(ft[i + 1]) as usize);
        let quad = seq![
            (vids[0], vids[1], vids[2]),
            (vids[0], vids[2], vids[3]),
        ];
        assert(fan_triples(vids) =~= quad);
        let res = ObjAcc { vtris: acc.vtris + fan_triples(vids), ..acc };
        assert(obj_face_line(ft, acc) == Ok::<ObjAcc, ParseError>(res));
        assert(obj_line(ft, acc) == obj_face_line(ft, acc));
        assert(lines.subrange(1, 1).len() == 0);
        assert(obj_lines(lines.subrange(1, 1), res) == Ok::<ObjAcc, ParseError>(res));
        assert(obj_lines(lines, acc) == Ok::<ObjAcc, ParseError>(res));
        assert(lines.subrange(0, 0).len() == 0);
        assert(vertex_record_count(lines.subrange(0, 0)) == 0);
    } else {
        let rest = lines.subrange(1, lines.len() as int);
        assert forall|k: int| 0 <= k < rest.len() - 1 implies is_vertex_record(#[trigger] rest[k])
            || is_skip_record(rest[k]) by {
            assert(rest[k] == lines[k + 1]);
        }
        assert(rest[rest.len() - 1] == lines[lines.len() - 1]);
        let prefix = lines.subrange(0, lines.len() - 1);
        let rest_prefix = rest.subrange(0, rest.len() - 1);
        assert(prefix.subrange(1, prefix.len() as int) =~= rest_prefix);
        assert(prefix[0] == lines[0]);
        assert(vertex_record_count(prefix) == (if is_vertex_record(lines[0]) {
            1int
        } else {
            0int
        }) + vertex_record_count(rest_prefix));
        if is_vertex_record(lines[0]) {
            assert(t[0] == seq![118u8]);
            let v = Vertex3 {
                x: num_val(t[1]) as i64,
                y: num_val(t[2]) as i64,
                z: num_val(t[3]) as i64,
            };
            let acc1 = ObjAcc { verts: acc.verts.push(v), ..acc };
            assert(obj_line(t, acc) == Ok::<ObjAcc, ParseError>(acc1));
            lemma_obj_quad_fan(rest, acc1);
            assert(obj_lines(lines, acc) == obj_lines(rest, acc1));
        } else {
            assert(is_skip_record(lines[0]));
            assert(obj_line(t, acc) == Ok::<ObjAcc, ParseError>(acc));
            lemma_obj_quad_fan(rest, acc);
            assert(obj_lines(lines, acc) == obj_lines(rest, acc));
        }
    }
}

} // verus!
