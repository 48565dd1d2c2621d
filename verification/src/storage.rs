//! Storage paths of blob artifacts: a photo is kept as
//! `storage/images/<id>.jpeg`, a face crop as `storage/faces/<id>.jpeg`.
//! The decimal rendering of the id is verified digit by digit.

use vstd::prelude::*;

verus! {

/// Relies on `String::push`: appends exactly one character.
#[verifier::external_body]
fn string_push(s: &mut String, c: char)
    ensures
        final(s)@ == old(s)@.push(c),
{
    s.push(c);
}

/// Relies on `String::push_str`: appends exactly the given string.
#[verifier::external_body]
fn string_append(s: &mut String, t: &str)
    ensures
        final(s)@ == old(s)@ + t@,
{
    s.push_str(t);
}

/// The character of a single decimal digit.
pub open spec fn spec_digit(d: int) -> char {
    ((48 + d) as u8) as char
}

/// Decimal rendering of a non-negative number, most significant digit
/// first.
pub open spec fn spec_decimal(n: int) -> Seq<char>
    decreases n,
{
    if n < 10 {
        seq![spec_digit(n)]
    } else {
        spec_decimal(n / 10).push(spec_digit(n % 10))
    }
}

/// Append the decimal rendering of `n`.
fn push_decimal(s: &mut String, n: u32)
    ensures
        final(s)@ == old(s)@ + spec_decimal(n as int),
    decreases n,
{
    if n < 10 {
        let c: char = (48 + (n as u8)) as char;
        string_push(s, c);
        proof {
            assert(s@ =~= old(s)@ + spec_decimal(n as int));
        }
    } else {
        push_decimal(s, n / 10);
        let c: char = (48 + ((n % 10) as u8)) as char;
        string_push(s, c);
        proof {
            assert(s@ =~= old(s)@ + spec_decimal(n as int));
        }
    }
}

/// Where the full-size JPEG of photo `id` is stored.
pub open spec fn spec_photo_path(id: int) -> Seq<char> {
    "storage/images/"@ + spec_decimal(id) + ".jpeg"@
}

/// Where the JPEG crop of face `id` is stored.
pub open spec fn spec_face_path(id: int) -> Seq<char> {
    "storage/faces/"@ + spec_decimal(id) + ".jpeg"@
}

pub fn photo_path(id: u32) -> (r: String)
    ensures
        r@ == spec_photo_path(id as int),
{
    let mut s = "storage/images/".to_owned();
    push_decimal(&mut s, id);
    string_append(&mut s, ".jpeg");
    proof {
        assert(s@ =~= spec_photo_path(id as int));
    }
    s
}

pub fn face_path(id: u32) -> (r: String)
    ensures
        r@ == spec_face_path(id as int),
{
    let mut s = "storage/faces/".to_owned();
    push_decimal(&mut s, id);
    string_append(&mut s, ".jpeg");
    proof {
        assert(s@ =~= spec_face_path(id as int));
    }
    s
}

} // verus!
