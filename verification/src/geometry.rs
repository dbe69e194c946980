//! Geometry primitives: parenthesised vectors of two and of three numbers.
use vstd::prelude::*;
use crate::error::{Keyword, SyntaxError};
use crate::lexical::{
    decimal, expect_keyword, expect_separator, keyword, lands, position, separator, signed_float,
    skip_space, spaces, Cursor,
};
use crate::model::{views, Decimal, DecimalView};

verus! {

/// `( x y )`: two numbers in parentheses, one separator between them, and
/// optional spaces inside the parentheses.
pub open spec fn pair(s: Seq<char>, c: Cursor) -> (Seq<DecimalView>, Cursor) {
    let (x, c1) = decimal(s, spaces(s, keyword(s, c, Keyword::OpenParen)));
    let (y, c2) = decimal(s, separator(s, c1));
    (seq![x, y], keyword(s, spaces(s, c2), Keyword::CloseParen))
}

/// `( x y z )`: three numbers in parentheses, one separator between each
/// two, and optional spaces inside the parentheses.
pub open spec fn triple(s: Seq<char>, c: Cursor) -> (Seq<DecimalView>, Cursor) {
    let (x, c1) = decimal(s, spaces(s, keyword(s, c, Keyword::OpenParen)));
    let (y, c2) = decimal(s, separator(s, c1));
    let (z, c3) = decimal(s, separator(s, c2));
    (seq![x, y, z], keyword(s, spaces(s, c3), Keyword::CloseParen))
}

/// Reads a parenthesised vector of two numbers.
pub fn vector2(input: &[char], pos: usize) -> (r: Result<([Decimal; 2], usize), SyntaxError>)
    requires
        pos <= input.len(),
    ensures
        lands(input@, position(r), pair(input@, Cursor::new(pos as int)).1),
        r matches Ok((v, next)) ==> views(v@) == pair(input@, Cursor::new(pos as int)).0 && pos
            < next <= input.len(),
{
    let open = expect_keyword(input, pos, Keyword::OpenParen)?;
    let (x, after_x) = signed_float(input, skip_space(input, open))?;
    let (y, after_y) = signed_float(input, expect_separator(input, after_x)?)?;
    let close = expect_keyword(input, skip_space(input, after_y), Keyword::CloseParen)?;
    let v = [x, y];
    assert(views(v@) =~= seq![x@, y@]);
    Ok((v, close))
}

/// Reads a parenthesised vector of three numbers.
pub fn vector3(input: &[char], pos: usize) -> (r: Result<([Decimal; 3], usize), SyntaxError>)
    requires
        pos <= input.len(),
    ensures
        lands(input@, position(r), triple(input@, Cursor::new(pos as int)).1),
        r matches Ok((v, next)) ==> views(v@) == triple(input@, Cursor::new(pos as int)).0 && pos
            < next <= input.len(),
{
    let open = expect_keyword(input, pos, Keyword::OpenParen)?;
    let (x, after_x) = signed_float(input, skip_space(input, open))?;
    let (y, after_y) = signed_float(input, expect_separator(input, after_x)?)?;
    let (z, after_z) = signed_float(input, expect_separator(input, after_y)?)?;
    let close = expect_keyword(input, skip_space(input, after_z), Keyword::CloseParen)?;
    let v = [x, y, z];
    assert(views(v@) =~= seq![x@, y@, z@]);
    Ok((v, close))
}

} // verus!
