//! The Normal-mode count axis: the numeric prefix typed before a motion or an operator, and the
//! count an armed operator carries. An operator count and a motion count multiply (`3d2w` acts on
//! six words); a bare motion repeats by its own count; an absent count is 1 to a motion and 0 to
//! the viewport resolver.
use vstd::prelude::*;

verus! {

/// `n`, or 1 when it is 0: the repeat a count stands for.
pub open spec fn at_least_one(n: u32) -> u32 {
    if n == 0 { 1 } else { n }
}

/// `count * 10 + d`, with the multiplication saturating at `u32::MAX`.
pub open spec fn with_digit(count: u32, d: u32) -> int {
    (if count * 10 <= u32::MAX { count * 10 } else { u32::MAX as int }) + d
}

/// The pending counts of the Normal grammar: the digits typed so far (0 = none) and, once an
/// operator is armed, the count it was armed with.
pub struct CountState {
    count: u32,
    op_count: Option<u32>,
}

impl CountState {
    /// The digits typed so far, 0 when none.
    pub closed spec fn count_view(&self) -> u32 {
        self.count
    }

    /// The count of the armed operator, if one is armed.
    pub closed spec fn op_view(&self) -> Option<u32> {
        self.op_count
    }

    /// No count and no armed operator.
    pub fn new() -> (r: CountState)
        ensures
            r.count_view() == 0,
            r.op_view() is None,
    {
        CountState { count: 0, op_count: None }
    }

    /// Feed the digit `d`. A `0` with no count pending is no digit (it is the line-start motion):
    /// `false`, nothing changed. Otherwise the count becomes `count * 10 + d` and the result is
    /// `true`.
    pub fn push_digit(&mut self, d: u32) -> (r: bool)
        requires
            d <= 9,
            with_digit(old(self).count_view(), d) <= u32::MAX,
        ensures
            r == (d != 0 || old(self).count_view() != 0),
            final(self).op_view() == old(self).op_view(),
            r ==> final(self).count_view() == with_digit(old(self).count_view(), d),
            !r ==> final(self).count_view() == old(self).count_view(),
    {
        if d == 0 && self.count == 0 {
            return false;
        }
        let tens: u32 = if self.count <= u32::MAX / 10 { self.count * 10 } else { u32::MAX };
        self.count = tens + d;
        true
    }

    /// Arm an operator: it takes the pending count (1 when none), and the count starts over.
    pub fn arm(&mut self)
        ensures
            final(self).op_view() == Some(at_least_one(old(self).count_view())),
            final(self).count_view() == 0,
    {
        self.op_count = Some(self.mcount());
        self.count = 0;
    }

    /// The motion count: the pending count, 1 when none.
    pub fn mcount(&self) -> (r: u32)
        ensures
            r == at_least_one(self.count_view()),
    {
        if self.count == 0 { 1 } else { self.count }
    }

    /// The repeat of a motion typed now: the operator count times the motion count when an
    /// operator is armed, else the motion count.
    pub fn motion_total(&self) -> (r: u32)
        requires
            self.op_view() matches Some(c) ==> at_least_one(c) * at_least_one(self.count_view()) <= u32::MAX,
        ensures
            r == match self.op_view() {
                Some(c) => at_least_one(c) * at_least_one(self.count_view()),
                None => at_least_one(self.count_view()) as int,
            },
    {
        match self.op_count {
            Some(c) => {
                let a: u32 = if c == 0 { 1 } else { c };
                a * self.mcount()
            },
            None => self.mcount(),
        }
    }

    /// The count for a viewport screen motion (`H`/`M`/`L`), read without consuming anything: the
    /// operator count times the motion count when an operator is armed, else the raw pending count
    /// (0 when none).
    pub fn screen_count(&self) -> (r: u32)
        requires
            self.op_view() matches Some(c) ==> at_least_one(c) * at_least_one(self.count_view()) <= u32::MAX,
        ensures
            r == match self.op_view() {
                Some(c) => at_least_one(c) * at_least_one(self.count_view()),
                None => self.count_view() as int,
            },
    {
        match self.op_count {
            Some(c) => {
                let a: u32 = if c == 0 { 1 } else { c };
                a * self.mcount()
            },
            None => self.count,
        }
    }

    /// Whether an operator is armed, read without consuming it.
    pub fn has_op(&self) -> (r: bool)
        ensures
            r == self.op_view() is Some,
    {
        self.op_count.is_some()
    }

    /// Whether nothing is pending: no count and no armed operator.
    pub fn is_clean(&self) -> (r: bool)
        ensures
            r == (self.count_view() == 0 && self.op_view() is None),
    {
        self.count == 0 && self.op_count.is_none()
    }

    /// Take the pending count (0 when none) and clear everything, so that it cannot carry over to
    /// the next command.
    pub fn take_count(&mut self) -> (r: u32)
        ensures
            r == old(self).count_view(),
            final(self).count_view() == 0,
            final(self).op_view() is None,
    {
        let n = self.count;
        self.count = 0;
        self.op_count = None;
        n
    }
}

} // verus!
