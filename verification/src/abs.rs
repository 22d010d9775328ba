//! Absolute values of signals.
use vstd::prelude::*;

use crate::signal::Signal;

verus! {

/// Signals whose values have an absolute value.
pub trait SignalAbs: Sized {
    /// Every value of the signal has an absolute value in its type, and the signal is
    /// in the shape the library keeps.
    spec fn abs_defined(&self) -> bool;

    /// The absolute value of each sample of the signal.
    fn abs(&self) -> (r: Self)
        requires
            self.abs_defined(),
    ;
}

/// The absolute value of an integer.
pub open spec fn int_abs(v: int) -> int {
    if v < 0 { -v } else { v }
}

/// The absolute value of every value of a list.
pub open spec fn abs_all(vs: Seq<i64>) -> Seq<i64> {
    vs.map_values(|v: i64| int_abs(v as int) as i64)
}

/// The absolute value of every value of a list of signed integers, none of them the
/// least one (whose absolute value does not fit).
fn abs_vec(vs: &Vec<i64>) -> (r: Vec<i64>)
    requires
        forall|i: int| 0 <= i < vs@.len() ==> vs@[i] != i64::MIN,
    ensures
        r@ == abs_all(vs@),
{
    let mut out: Vec<i64> = Vec::with_capacity(vs.len());
    let mut i: usize = 0;
    while i < vs.len()
        invariant
            i <= vs@.len(),
            forall|j: int| 0 <= j < vs@.len() ==> vs@[j] != i64::MIN,
            out@ == abs_all(vs@.take(i as int)),
        decreases vs@.len() - i,
    {
        let v = vs[i];
        let a = if v < 0 { -v } else { v };
        out.push(a);
        proof {
            assert(vs@.take(i + 1) == vs@.take(i as int).push(v));
            assert(abs_all(vs@.take(i + 1)) =~= abs_all(vs@.take(i as int)).push(a));
        }
        i = i + 1;
    }
    proof {
        assert(vs@.take(vs@.len() as int) == vs@);
    }
    out
}

impl SignalAbs for Signal<i64> {
    open spec fn abs_defined(&self) -> bool {
        &&& self.wf()
        &&& match self {
            Signal::Constant { value } => *value != i64::MIN,
            _ => forall|i: int| 0 <= i < self.vals().len() ==> self.vals()[i] != i64::MIN,
        }
    }

    fn abs(&self) -> (r: Self)
        ensures
            r.wf(),
            *self is Empty ==> r is Empty,
            *self matches Signal::Constant { value } ==> r == (Signal::Constant {
                value: int_abs(value as int) as i64,
            }),
            *self is Sampled ==> r is Sampled && r.times() == self.times() && r.vals() == abs_all(
                self.vals(),
            ),
    {
        match self {
            Signal::Empty => Signal::Empty,
            Signal::Constant { value } => Signal::Constant {
                value: if *value < 0 {
                    -*value
                } else {
                    *value
                },
            },
            Signal::Sampled { values, time_points } => {
                proof {
                    assert forall|i: int| 0 <= i < values@.len() implies values@[i] != i64::MIN by {
                        assert(self.vals()[i] == values@[i]);
                    }
                }
                Signal::Sampled { values: abs_vec(values), time_points: time_points.clone() }
            },
        }
    }
}

impl SignalAbs for Signal<u64> {
    open spec fn abs_defined(&self) -> bool {
        self.wf()
    }

    fn abs(&self) -> (r: Self)
        ensures
            r.wf(),
            *self is Empty ==> r is Empty,
            *self is Constant ==> r == *self,
            *self is Sampled ==> r is Sampled && r.times() == self.times() && r.vals() == self.vals(),
    {
        match self {
            Signal::Empty => Signal::Empty,
            Signal::Constant { value } => Signal::Constant { value: *value },
            Signal::Sampled { values, time_points } => Signal::Sampled {
                values: values.clone(),
                time_points: time_points.clone(),
            },
        }
    }
}

} // verus!
