//! Integer grid vectors: positions and offsets on a game board.
use vstd::prelude::*;

verus! {

/// A position (or an offset) on the board; `y` grows downwards.
#[derive(Clone, Copy, PartialEq, Eq, Hash, Debug, Structural)]
pub struct BVec {
    pub x: i32,
    pub y: i32,
}

/// True when `v` fits in an `i32`.
pub open spec fn fits_i32(v: int) -> bool {
    i32::MIN <= v <= i32::MAX
}

/// The character of a decimal digit `d < 10`.
pub open spec fn digit_char(d: int) -> char {
    if d == 0 { '0' }
    else if d == 1 { '1' }
    else if d == 2 { '2' }
    else if d == 3 { '3' }
    else if d == 4 { '4' }
    else if d == 5 { '5' }
    else if d == 6 { '6' }
    else if d == 7 { '7' }
    else if d == 8 { '8' }
    else { '9' }
}

/// The decimal digits of a natural number, most significant first, without leading zeros.
pub open spec fn nat_text(n: nat) -> Seq<char>
    decreases n,
{
    if n < 10 {
        seq![digit_char(n as int)]
    } else {
        nat_text(n / 10) + seq![digit_char((n % 10) as int)]
    }
}

/// The decimal text of an integer, with a leading `-` when it is negative.
pub open spec fn int_text(n: int) -> Seq<char> {
    if n < 0 {
        seq!['-'] + nat_text((-n) as nat)
    } else {
        nat_text(n as nat)
    }
}

/// The text of a vector: `[x, y]`.
pub open spec fn bvec_text(v: BVec) -> Seq<char> {
    seq!['['] + int_text(v.x as int) + seq![',', ' '] + int_text(v.y as int) + seq![']']
}

fn digit_str(d: u64) -> (s: &'static str)
    requires
        d < 10,
    ensures
        s@ == seq![digit_char(d as int)],
{
    if d == 0 { proof { reveal_strlit("0"); } "0" }
    else if d == 1 { proof { reveal_strlit("1"); } "1" }
    else if d == 2 { proof { reveal_strlit("2"); } "2" }
    else if d == 3 { proof { reveal_strlit("3"); } "3" }
    else if d == 4 { proof { reveal_strlit("4"); } "4" }
    else if d == 5 { proof { reveal_strlit("5"); } "5" }
    else if d == 6 { proof { reveal_strlit("6"); } "6" }
    else if d == 7 { proof { reveal_strlit("7"); } "7" }
    else if d == 8 { proof { reveal_strlit("8"); } "8" }
    else { proof { reveal_strlit("9"); } "9" }
}

/// Appends the decimal digits of `n` to `s`.
fn append_nat(s: &mut String, n: u64)
    ensures
        final(s)@ == old(s)@ + nat_text(n as nat),
    decreases n,
{
    if n >= 10 {
        append_nat(s, n / 10);
        let d = digit_str(n % 10);
        s.append(d);
        assert(final(s)@ =~= old(s)@ + nat_text(n as nat));
    } else {
        let d = digit_str(n);
        s.append(d);
    }
}

/// Appends the decimal text of `n` to `s`.
fn append_int(s: &mut String, n: i32)
    ensures
        final(s)@ == old(s)@ + int_text(n as int),
{
    if n < 0 {
        proof { reveal_strlit("-"); }
        s.append("-");
        let m: i64 = -(n as i64);
        append_nat(s, m as u64);
        assert(final(s)@ =~= old(s)@ + int_text(n as int));
    } else {
        append_nat(s, n as u64);
    }
}

impl BVec {
    pub fn new(x: i32, y: i32) -> (r: BVec)
        ensures
            r.x == x,
            r.y == y,
    {
        BVec { x, y }
    }

    /// Adds `rhs` to this vector.
    pub fn add_v(&mut self, rhs: BVec)
        requires
            fits_i32(old(self).x + rhs.x),
            fits_i32(old(self).y + rhs.y),
        ensures
            final(self).x == old(self).x + rhs.x,
            final(self).y == old(self).y + rhs.y,
    {
        self.x = self.x + rhs.x;
        self.y = self.y + rhs.y;
    }

    /// Adds the offset `(x, y)` to this vector.
    pub fn add_i(&mut self, x: i32, y: i32)
        requires
            fits_i32(old(self).x + x),
            fits_i32(old(self).y + y),
        ensures
            final(self).x == old(self).x + x,
            final(self).y == old(self).y + y,
    {
        self.x = self.x + x;
        self.y = self.y + y;
    }

    /// Multiplies both coordinates by `n`.
    pub fn mult_s(&mut self, n: i32)
        requires
            fits_i32(old(self).x * n),
            fits_i32(old(self).y * n),
        ensures
            final(self).x == old(self).x * n,
            final(self).y == old(self).y * n,
    {
        self.x = self.x * n;
        self.y = self.y * n;
    }

    /// Sets both coordinates to zero.
    pub fn clear(&mut self)
        ensures
            final(self).x == 0,
            final(self).y == 0,
    {
        self.x = 0;
        self.y = 0;
    }

    /// The sum of two vectors.
    pub fn add(&self, rhs: &BVec) -> (r: BVec)
        requires
            fits_i32(self.x + rhs.x),
            fits_i32(self.y + rhs.y),
        ensures
            r.x == self.x + rhs.x,
            r.y == self.y + rhs.y,
    {
        BVec::new(self.x + rhs.x, self.y + rhs.y)
    }

    /// The difference of two vectors.
    pub fn sub(&self, rhs: &BVec) -> (r: BVec)
        requires
            fits_i32(self.x - rhs.x),
            fits_i32(self.y - rhs.y),
        ensures
            r.x == self.x - rhs.x,
            r.y == self.y - rhs.y,
    {
        BVec::new(self.x - rhs.x, self.y - rhs.y)
    }

    /// The text of this vector, `[x, y]`.
    pub fn to_string(&self) -> (s: String)
        ensures
            s@ == bvec_text(*self),
    {
        proof {
            reveal_strlit("[");
            reveal_strlit(", ");
            reveal_strlit("]");
        }
        let mut s = String::from_str("[");
        append_int(&mut s, self.x);
        s.append(", ");
        append_int(&mut s, self.y);
        s.append("]");
        assert(s@ =~= bvec_text(*self));
        s
    }
}

} // verus!
