//! Readable renderings of recipes and reviews, with the exact text
//! pinned down at the spec level.

use vstd::prelude::*;
use vstd::string::{StrSliceExecFns, StringExecFns};
use crate::document::{rden, Rational};
use crate::project::{Recipe, RecipeV, Review};

verus! {

/// The decimal digit `d` as text.
pub open spec fn digit_seq(d: nat) -> Seq<char> {
    if d == 0 {
        "0"@
    } else if d == 1 {
        "1"@
    } else if d == 2 {
        "2"@
    } else if d == 3 {
        "3"@
    } else if d == 4 {
        "4"@
    } else if d == 5 {
        "5"@
    } else if d == 6 {
        "6"@
    } else if d == 7 {
        "7"@
    } else if d == 8 {
        "8"@
    } else {
        "9"@
    }
}

/// The decimal rendering of `n`, most significant digit first.
pub open spec fn dec_str(n: nat) -> Seq<char>
    decreases n,
{
    if n < 10 {
        digit_seq(n)
    } else {
        dec_str(n / 10) + digit_seq(n % 10)
    }
}

/// The digit `d` as text.
fn digit_str(d: u64) -> (s: &'static str)
    requires
        d < 10,
    ensures
        s@ == digit_seq(d as nat),
{
    if d == 0 {
        "0"
    } else if d == 1 {
        "1"
    } else if d == 2 {
        "2"
    } else if d == 3 {
        "3"
    } else if d == 4 {
        "4"
    } else if d == 5 {
        "5"
    } else if d == 6 {
        "6"
    } else if d == 7 {
        "7"
    } else if d == 8 {
        "8"
    } else {
        "9"
    }
}

/// Renders `n` in decimal, as `dec_str` describes.
pub fn dec_u64(n: u64) -> (s: String)
    ensures
        s@ == dec_str(n as nat),
    decreases n,
{
    if n < 10 {
        digit_str(n).to_owned()
    } else {
        let mut s = dec_u64(n / 10);
        s.append(digit_str(n % 10));
        s
    }
}

/// The rendering of a rational: the integer value when the denominator
/// is one, else `numerator/denominator`, a minus sign leading a negative
/// numerator.
pub open spec fn rat_str(q: Rational) -> Seq<char> {
    let sign = if q.num < 0 {
        "-"@
    } else {
        Seq::<char>::empty()
    };
    let mag = crate::avg::iabs(q.num as int);
    if rden(q) == 1 {
        sign + dec_str(mag)
    } else {
        sign + dec_str(mag) + "/"@ + dec_str(rden(q) as nat)
    }
}

/// Renders a rational, as `rat_str` describes.
pub fn rat_string(q: &Rational) -> (s: String)
    ensures
        s@ == rat_str(*q),
{
    let d = crate::avg::rden_exec(q);
    let mag: u64 = if q.num >= 0 {
        q.num as u64
    } else {
        (-(q.num as i128)) as u64
    };
    let mut s = if q.num < 0 {
        "-".to_owned()
    } else {
        "".to_owned()
    };
    proof {
        if q.num >= 0 {
            reveal_strlit("");
            assert(s@ =~= Seq::<char>::empty());
        }
    }
    let digits = dec_u64(mag);
    s.append(digits.as_str());
    if d != 1 {
        s.append("/");
        let den_digits = dec_u64(d);
        s.append(den_digits.as_str());
    }
    s
}

impl Review {
    /// The review as text: its rating in decimal.
    pub fn display_string(&self) -> (s: String)
        ensures
            s@ == dec_str(self.rating as nat),
    {
        dec_u64(self.rating as u64)
    }
}

/// The review ratings joined by a comma and a space.
pub open spec fn ratings_join(rs: Seq<Review>) -> Seq<char>
    decreases rs.len(),
{
    if rs.len() == 0 {
        Seq::<char>::empty()
    } else if rs.len() == 1 {
        dec_str(rs[0].rating as nat)
    } else {
        dec_str(rs[0].rating as nat) + ", "@ + ratings_join(rs.drop_first())
    }
}

/// Appending one review appends a separator (except to an empty join)
/// and its rating.
proof fn lemma_join_push(rs: Seq<Review>, x: Review)
    ensures
        ratings_join(rs.push(x)) == if rs.len() == 0 {
            dec_str(x.rating as nat)
        } else {
            ratings_join(rs) + ", "@ + dec_str(x.rating as nat)
        },
    decreases rs.len(),
{
    if rs.len() == 0 {
        assert(rs.push(x)[0] == x);
    } else {
        lemma_join_push(rs.drop_first(), x);
        assert(rs.push(x).drop_first() =~= rs.drop_first().push(x));
        assert(rs.push(x)[0] == rs[0]);
        if rs.len() == 1 {
            assert(rs.drop_first().len() == 0);
        }
    }
}

/// The rendering of a recipe: its name, its rating, and its review
/// ratings in parentheses.
pub open spec fn recipe_display(rv: RecipeV) -> Seq<char> {
    "Recipe: "@ + rv.name + ", Rating: "@ + rat_str(rv.rating) + " ("@ + ratings_join(rv.reviews)
        + ")"@
}

impl Recipe {
    /// The recipe as text, as `recipe_display` describes.
    pub fn display_string(&self) -> (s: String)
        ensures
            s@ == recipe_display(self.dv()),
    {
        let mut s = "Recipe: ".to_owned();
        s.append(self.name.as_str());
        s.append(", Rating: ");
        let rat = rat_string(&self.rating);
        s.append(rat.as_str());
        s.append(" (");
        let n = self.reviews.len();
        let mut i: usize = 0;
        let mut joined = "".to_owned();
        proof {
            reveal_strlit("");
            assert(joined@ =~= Seq::<char>::empty());
            assert(self.reviews@.take(0) =~= Seq::<Review>::empty());
        }
        #[verifier::loop_isolation(false)]
        while i < n
            invariant
                n == self.reviews@.len(),
                i <= n,
                joined@ == ratings_join(self.reviews@.take(i as int)),
            decreases n - i,
        {
            if i > 0 {
                joined.append(", ");
            }
            let digits = dec_u64(self.reviews[i].rating as u64);
            joined.append(digits.as_str());
            proof {
                lemma_join_push(self.reviews@.take(i as int), self.reviews@[i as int]);
                assert(self.reviews@.take(i as int).push(self.reviews@[i as int])
                    =~= self.reviews@.take(i as int + 1));
            }
            i += 1;
        }
        proof {
            assert(self.reviews@.take(n as int) =~= self.reviews@);
        }
        s.append(joined.as_str());
        s.append(")");
        proof {
            assert(s@ =~= recipe_display(self.dv()));
        }
        s
    }
}

} // verus!
