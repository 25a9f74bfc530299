use vstd::prelude::*;

verus! {

/// Greatest common divisor by Euclid's rule; `gcd_spec(a, 0) == a`.
pub open spec fn gcd_spec(a: nat, b: nat) -> nat
    decreases b,
{
    if b == 0 {
        a
    } else {
        gcd_spec(b, a % b)
    }
}

/// Greatest common divisor of `a` and `b`, by repeated remainders.
pub fn gcd(a: usize, b: usize) -> (g: usize)
    ensures
        g == gcd_spec(a as nat, b as nat),
{
    let mut x = a;
    let mut y = b;
    loop
        invariant
            gcd_spec(x as nat, y as nat) == gcd_spec(a as nat, b as nat),
        decreases y, x,
    {
        if x == 0 {
            proof {
                if y != 0 {
                    assert(0nat % (y as nat) == 0);
                    assert(gcd_spec(y as nat, 0) == y);
                }
            }
            return y;
        }
        if y == 0 {
            return x;
        }
        if x < y {
            proof {
                vstd::arithmetic::div_mod::lemma_small_mod(x as nat, y as nat);
            }
            let t = x;
            x = y;
            y = t;
        } else {
            proof {
                vstd::arithmetic::div_mod::lemma_mod_pos_bound(x as int, y as int);
                vstd::arithmetic::div_mod::lemma_small_mod(x as nat % y as nat, y as nat);
            }
            x = x % y;
        }
    }
}

} // verus!
