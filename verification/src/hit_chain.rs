//! The chain of UI elements under the cursor.
//!
//! Starting from a window, the detector repeatedly descends into the first
//! child element that is on screen and whose bounds, clipped to the window,
//! contain the cursor. It probes at most [`MAX_HIT_DEPTH`] levels and records
//! each hit's clipped bounds, skipping a hit whose bounds equal the previous
//! one. The result lists the innermost element first, each clipped to the
//! display and given relative to it; bounds off the display are dropped.
use vstd::prelude::*;
use crate::geometry::{
    area_contains, clip_to_display, intersection_contains_exactly_common_points, max_i32, min_i32, normalized_area,
    overlap, DisplayRelativeRect, PhysicalRect,
};

verus! {

/// Deepest level of the element tree that is probed.
pub const MAX_HIT_DEPTH: usize = 64;

/// The clipped bounds of an element when it is hit by the point `(x, y)`:
/// it is known to be on screen, its bounds are known, they overlap the
/// window, and the overlap contains the point.
pub open spec fn spec_element_hit(
    offscreen: Option<bool>,
    rect: Option<(i32, i32, i32, i32)>,
    window: (i32, i32, i32, i32),
    x: i32,
    y: i32,
) -> Option<(i32, i32, i32, i32)> {
    if offscreen == Some(false) && rect is Some {
        let r = rect->0;
        match overlap(normalized_area(r.0, r.1, r.2, r.3), window) {
            Some(c) => if area_contains(c, x, y) {
                Some(c)
            } else {
                None
            },
            None => None,
        }
    } else {
        None
    }
}

/// Whether an element is hit by the cursor; `offscreen` and `rect` are what
/// the platform reported, `None` where it could not tell.
pub fn element_hit(
    offscreen: Option<bool>,
    rect: Option<(i32, i32, i32, i32)>,
    window: &PhysicalRect,
    x: i32,
    y: i32,
) -> (r: Option<PhysicalRect>)
    ensures
        (r is Some) == (spec_element_hit(offscreen, rect, window@, x, y) is Some),
        r matches Some(b) ==> spec_element_hit(offscreen, rect, window@, x, y) == Some(b@),
        r matches Some(b) ==> b@.0 <= x < b@.2 && b@.1 <= y < b@.3,
        r matches Some(b) ==> window@.0 <= b@.0 && b@.2 <= window@.2 && window@.1 <= b@.1 && b@.3 <= window@.3,
{
    if offscreen != Some(false) {
        return None;
    }
    match rect {
        Some((l, t, r, b)) => {
            let bounds = PhysicalRect::new(l, t, r, b);
            match bounds.intersect(window) {
                Some(clipped) => {
                    if clipped.contains(x, y) {
                        Some(clipped)
                    } else {
                        None
                    }
                },
                None => None,
            }
        },
        None => None,
    }
}

/// No two neighbouring entries are equal.
pub open spec fn no_adjacent_duplicates(s: Seq<PhysicalRect>) -> bool {
    forall|i: int| 0 <= i < s.len() - 1 ==> #[trigger] s[i] != s[i + 1]
}

/// The hits recorded while descending the element tree.
pub struct HitChain {
    chain: Vec<PhysicalRect>,
    probes: usize,
}

/// The part of each recorded hit on the display, innermost first.
pub open spec fn chain_on_display(chain: Seq<PhysicalRect>, display: (i32, i32, i32, i32)) -> Seq<
    DisplayRelativeRect,
>
    decreases chain.len(),
{
    if chain.len() == 0 {
        Seq::empty()
    } else {
        let last = chain[chain.len() - 1];
        let rest = chain_on_display(chain.drop_last(), display);
        match overlap(last@, display) {
            Some(c) => seq![
                DisplayRelativeRect {
                    x: (c.0 - display.0) as i64,
                    y: (c.1 - display.1) as i64,
                    width: (c.2 - c.0) as i64,
                    height: (c.3 - c.1) as i64,
                },
            ] + rest,
            None => rest,
        }
    }
}

/// Clipping to the display never adds entries.
pub proof fn lemma_chain_on_display_len(chain: Seq<PhysicalRect>, display: (i32, i32, i32, i32))
    ensures
        chain_on_display(chain, display).len() <= chain.len(),
    decreases chain.len(),
{
    if chain.len() > 0 {
        lemma_chain_on_display_len(chain.drop_last(), display);
    }
}

impl HitChain {
    #[verifier::type_invariant]
    spec fn consistent(self) -> bool {
        &&& self.chain@.len() <= self.probes <= MAX_HIT_DEPTH
        &&& no_adjacent_duplicates(self.chain@)
    }

    /// The recorded bounds, outermost first.
    pub closed spec fn chain(self) -> Seq<PhysicalRect> {
        self.chain@
    }

    /// How many levels have been probed.
    pub closed spec fn probes(self) -> nat {
        self.probes as nat
    }

    /// Nothing probed yet.
    pub fn new() -> (r: Self)
        ensures
            r.chain() == Seq::<PhysicalRect>::empty(),
            r.probes() == 0,
    {
        HitChain { chain: Vec::new(), probes: 0 }
    }

    /// Whether another level may be probed.
    pub fn can_probe(&self) -> (r: bool)
        ensures
            r == (self.probes() < MAX_HIT_DEPTH),
    {
        self.probes < MAX_HIT_DEPTH
    }

    /// Records the clipped bounds of the element hit at the next level.
    pub fn record(&mut self, hit: PhysicalRect)
        requires
            old(self).probes() < MAX_HIT_DEPTH,
        ensures
            final(self).probes() == old(self).probes() + 1,
            final(self).chain() == if old(self).chain().len() > 0 && old(self).chain().last() == hit {
                old(self).chain()
            } else {
                old(self).chain().push(hit)
            },
            no_adjacent_duplicates(final(self).chain()),
            final(self).chain().len() <= final(self).probes() <= MAX_HIT_DEPTH,
    {
        proof {
            use_type_invariant(&*self);
        }
        let mut chain: Vec<PhysicalRect> = Vec::new();
        std::mem::swap(&mut chain, &mut self.chain);
        let n = chain.len();
        let repeated = n > 0 && chain[n - 1] == hit;
        if !repeated {
            chain.push(hit);
        }
        self.probes = self.probes + 1;
        self.chain = chain;
    }

    /// The recorded hits, innermost first, each clipped to `display` and
    /// relative to it; hits off the display are dropped.
    pub fn on_display(&self, display: &PhysicalRect) -> (r: Vec<DisplayRelativeRect>)
        ensures
            r@ == chain_on_display(self.chain(), display@),
            r@.len() <= self.chain().len() <= MAX_HIT_DEPTH,
            forall|k: int|
                0 <= k < r@.len() ==> 0 <= (#[trigger] r@[k]).x && 0 <= r@[k].y && 0 < r@[k].width && 0 < r@[k].height
                    && r@[k].x + r@[k].width <= display@.2 - display@.0 && r@[k].y + r@[k].height <= display@.3
                    - display@.1,
    {
        proof {
            use_type_invariant(self);
            lemma_chain_on_display_len(self.chain@, display@);
            display_relative_rects_lie_on_the_display(self.chain@, display@);
        }
        let ghost whole = self.chain@;
        let mut out: Vec<DisplayRelativeRect> = Vec::new();
        let mut k: usize = self.chain.len();
        assert(whole.subrange(0, k as int) =~= whole);
        assert(out@ + chain_on_display(whole, display@) =~= chain_on_display(whole, display@));
        while k > 0
            invariant
                k <= whole.len(),
                whole == self.chain@,
                out@ + chain_on_display(whole.subrange(0, k as int), display@) == chain_on_display(
                    whole,
                    display@,
                ),
            decreases k,
        {
            let ghost prefix = whole.subrange(0, k as int);
            assert(prefix.drop_last() =~= whole.subrange(0, k - 1));
            assert(prefix[prefix.len() - 1] == whole[k - 1]);
            let ghost before = out@;
            match clip_to_display(&self.chain[k - 1], display) {
                Some(c) => {
                    out.push(c);
                    assert(out@ + chain_on_display(whole.subrange(0, k - 1), display@) =~= before + (
                    seq![c] + chain_on_display(whole.subrange(0, k - 1), display@)));
                },
                None => {},
            }
            k = k - 1;
        }
        assert(whole.subrange(0, 0) =~= Seq::<PhysicalRect>::empty());
        assert(out@ =~= out@ + Seq::<DisplayRelativeRect>::empty());
        out
    }
}

/// An element is hit exactly when it is known to be on screen, its bounds are
/// known, and the cursor lies both in its bounds and in the window; the hit is
/// its bounds clipped to the window, which contain the cursor.
pub proof fn element_hit_holds_the_cursor(
    offscreen: Option<bool>,
    rect: Option<(i32, i32, i32, i32)>,
    window: (i32, i32, i32, i32),
    x: i32,
    y: i32,
)
    ensures
        (spec_element_hit(offscreen, rect, window, x, y) is Some) <==> (offscreen == Some(false) && match rect {
            Some(r) => area_contains(normalized_area(r.0, r.1, r.2, r.3), x, y) && area_contains(window, x, y),
            None => false,
        }),
        spec_element_hit(offscreen, rect, window, x, y) matches Some(b) ==> {
            &&& b.0 <= x < b.2 && b.1 <= y < b.3
            &&& window.0 <= b.0 && b.2 <= window.2 && window.1 <= b.1 && b.3 <= window.3
        },
{
    if offscreen == Some(false) && rect is Some {
        let r = rect->0;
        intersection_contains_exactly_common_points(normalized_area(r.0, r.1, r.2, r.3), window, x, y);
    }
}

/// Every reported rectangle lies on the display, relative to its top-left
/// corner, and has positive size.
pub proof fn display_relative_rects_lie_on_the_display(chain: Seq<PhysicalRect>, display: (i32, i32, i32, i32))
    ensures
        forall|k: int|
            0 <= k < chain_on_display(chain, display).len() ==> {
                let e = #[trigger] chain_on_display(chain, display)[k];
                &&& 0 <= e.x && 0 <= e.y && 0 < e.width && 0 < e.height
                &&& e.x + e.width <= display.2 - display.0
                &&& e.y + e.height <= display.3 - display.1
            },
    decreases chain.len(),
{
    if chain.len() > 0 {
        display_relative_rects_lie_on_the_display(chain.drop_last(), display);
        let rest = chain_on_display(chain.drop_last(), display);
        let all = chain_on_display(chain, display);
        assert forall|k: int| 0 <= k < all.len() implies {
            let e = #[trigger] all[k];
            &&& 0 <= e.x && 0 <= e.y && 0 < e.width && 0 < e.height
            &&& e.x + e.width <= display.2 - display.0
            &&& e.y + e.height <= display.3 - display.1
        } by {
            if all.len() > rest.len() {
                if k > 0 {
                    assert(all[k] == rest[k - 1]);
                }
            } else {
                assert(all[k] == rest[k]);
            }
        }
    }
}

/// Recording one more (innermost) hit puts its part on the display, relative
/// to the display's origin, in front of what was reported before.
pub proof fn innermost_hit_is_reported_first(chain: Seq<PhysicalRect>, hit: PhysicalRect, display: (i32, i32, i32, i32))
    ensures
        ({
            let h = hit@;
            let l = max_i32(h.0, display.0);
            let t = max_i32(h.1, display.1);
            let r = min_i32(h.2, display.2);
            let b = min_i32(h.3, display.3);
            chain_on_display(chain.push(hit), display) == if l < r && t < b {
                seq![
                    DisplayRelativeRect {
                        x: (l - display.0) as i64,
                        y: (t - display.1) as i64,
                        width: (r - l) as i64,
                        height: (b - t) as i64,
                    },
                ]
                    + chain_on_display(chain, display)
            } else {
                chain_on_display(chain, display)
            }
        }),
{
    assert(chain.push(hit).drop_last() =~= chain);
}

/// In a chain without adjacent duplicates, each entry differs from the next.
pub proof fn adjacent_entries_differ(chain: Seq<PhysicalRect>, i: int)
    requires
        no_adjacent_duplicates(chain),
        0 <= i < chain.len() - 1,
    ensures
        chain[i] != chain[i + 1],
{
}

} // verus!
