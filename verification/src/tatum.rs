use vstd::prelude::*;

verus! {

/// The fixed number of equally spaced slots per bar at which a chord may start.
pub const TATUM_SUBDIVDISONS_PER_BAR: usize = 16;

/// One slot of the subdivision grid: an index into the bar, always below
/// `TATUM_SUBDIVDISONS_PER_BAR`.
#[derive(PartialEq, Eq, Structural, Debug, Copy, Clone, PartialOrd, Ord)]
pub struct Tatum(pub usize);

impl Tatum {
    /// A tatum is an index into the bar's subdivision grid.
    pub open spec fn wf(&self) -> bool {
        self.0 < TATUM_SUBDIVDISONS_PER_BAR
    }

    /// Admit an index as a tatum; an index at or beyond the grid is rejected.
    pub fn try_from(value: usize) -> (r: Result<Tatum, &'static str>)
        ensures
            value < TATUM_SUBDIVDISONS_PER_BAR <==> r is Ok,
            r is Ok ==> r->Ok_0 == Tatum(value) && r->Ok_0.wf(),
    {
        if value >= TATUM_SUBDIVDISONS_PER_BAR {
            return Err("Tatum index that is larger than number of subdivisions");
        }
        Ok(Tatum(value))
    }

    /// Move `offset` slots along the grid, wrapping around the bar in either
    /// direction.
    pub fn add(&self, offset: i32) -> (r: Tatum)
        requires
            self.wf(),
        ensures
            r.wf(),
            r.0 as int == (self.0 as int + offset as int) % (TATUM_SUBDIVDISONS_PER_BAR as int),
    {
        let shifted: i64 = self.0 as i64 + offset as i64;
        let wrapped: i64 = if shifted >= 0 {
            shifted % 16
        } else {
            let m: i64 = (-shifted) % 16;
            if m == 0 {
                0
            } else {
                16 - m
            }
        };
        proof {
            lemma_wrap_is_euclidean_mod(shifted as int);
        }
        Tatum(wrapped as usize)
    }
}

/// Relates the branch-computed wraparound to the mathematical remainder.
proof fn lemma_wrap_is_euclidean_mod(shifted: int)
    ensures
        shifted >= 0 ==> shifted % 16 == shifted % 16,
        shifted < 0 && (-shifted) % 16 == 0 ==> shifted % 16 == 0,
        shifted < 0 && (-shifted) % 16 != 0 ==> shifted % 16 == 16 - (-shifted) % 16,
{
    if shifted < 0 {
        let neg = -shifted;
        let q = neg / 16;
        let m = neg % 16;
        vstd::arithmetic::div_mod::lemma_fundamental_div_mod(neg, 16);
        if m == 0 {
            vstd::arithmetic::div_mod::lemma_fundamental_div_mod_converse(shifted, 16, -q, 0);
        } else {
            vstd::arithmetic::div_mod::lemma_fundamental_div_mod_converse(
                shifted,
                16,
                -q - 1,
                16 - m,
            );
        }
    }
}

} // verus!
