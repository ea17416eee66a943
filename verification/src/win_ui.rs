//! What the windows share: the fonts and the shortening of texts.

use vstd::prelude::*;

verus! {

/// The fonts of the windows.
#[derive(Clone, Copy, PartialEq, Eq, Structural, Debug)]
pub enum F {
    Title,
    Label,
    Hint,
    Input,
    Seg,
    Btn,
    BtnBold,
    Body,
}

/// How many fonts there are.
pub const N_F: usize = 8;

pub open spec fn font_index(f: F) -> int {
    match f {
        F::Title => 0,
        F::Label => 1,
        F::Hint => 2,
        F::Input => 3,
        F::Seg => 4,
        F::Btn => 5,
        F::BtnBold => 6,
        F::Body => 7,
    }
}

impl F {
    /// The place of a font among the fonts.
    pub fn index(self) -> (r: usize)
        ensures
            r == font_index(self),
            r < N_F,
    {
        match self {
            F::Title => 0,
            F::Label => 1,
            F::Hint => 2,
            F::Input => 3,
            F::Seg => 4,
            F::Btn => 5,
            F::BtnBold => 6,
            F::Body => 7,
        }
    }

    /// The weight of a font.
    pub fn weight(self) -> (r: i32)
        ensures
            r == (match self {
                F::Title | F::Label | F::Seg | F::Btn => 500,
                F::BtnBold => 600,
                F::Hint | F::Input | F::Body => 400int,
            }),
    {
        match self {
            F::Title | F::Label | F::Seg | F::Btn => 500,
            F::BtnBold => 600,
            F::Hint | F::Input | F::Body => 400,
        }
    }
}

/// The family of the fonts: Inter where it is installed.
pub fn ui_face(inter: bool) -> (r: &'static str)
    ensures
        r@ == (if inter {
            "Inter"@
        } else {
            "Segoe UI"@
        }),
{
    if inter {
        "Inter"
    } else {
        "Segoe UI"
    }
}

/// The three dots in one character.
pub const DOTS: u16 = 0x2026;

/// The most units, below `n`, that fit together with the dots; 1 if none do.
pub open spec fn longest_fit(fits: Seq<bool>, n: int) -> int
    decreases n,
{
    if n <= 2 {
        1
    } else if fits[n - 1] {
        n - 1
    } else {
        longest_fit(fits, n - 1)
    }
}

/// A text cut to what fits, with dots behind it.
pub open spec fn ellipsized(t: Seq<u16>, whole: bool, fits: Seq<bool>) -> Seq<u16> {
    if whole || t.len() < 2 {
        t
    } else {
        t.take(longest_fit(fits, t.len() as int)).push(DOTS)
    }
}

/// Cuts a text to what fits. `whole` says whether all of it does; `fits` says
/// for each number of units whether so many fit together with dots.
pub fn ellipsize(t: &Vec<u16>, whole: bool, fits: &Vec<bool>) -> (r: Vec<u16>)
    requires
        fits@.len() >= t@.len(),
    ensures
        r@ == ellipsized(t@, whole, fits@),
{
    let len: usize = t.len();
    let mut n: usize = len;
    let cut = !whole && len >= 2;
    if cut {
        n = len - 1;
        while n > 1 && !fits[n]
            invariant
                1 <= n < len <= fits@.len(),
                longest_fit(fits@, n + 1) == longest_fit(fits@, len as int),
            decreases n,
        {
            n -= 1;
        }
    }
    let mut r: Vec<u16> = Vec::new();
    let mut i: usize = 0;
    while i < n
        invariant
            i <= n <= t@.len(),
            r@ == t@.take(i as int),
        decreases n - i,
    {
        r.push(t[i]);
        i += 1;
        assert(r@ =~= t@.take(i as int));
    }
    if cut {
        r.push(DOTS);
    } else {
        assert(t@.take(len as int) =~= t@);
    }
    r
}

/// What is kept of a text is its beginning, and as much as fits.
pub proof fn law_longest_fit(fits: Seq<bool>, n: int)
    requires
        n >= 2,
    ensures
        1 <= longest_fit(fits, n) < n,
        longest_fit(fits, n) > 1 ==> fits[longest_fit(fits, n)],
        forall|k: int| longest_fit(fits, n) < k < n ==> !fits[k],
    decreases n,
{
    if n > 2 && !fits[n - 1] {
        law_longest_fit(fits, n - 1);
    }
}

} // verus!
