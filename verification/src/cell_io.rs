//! Clock and constant cells.

use vstd::prelude::*;

use crate::errors::CellError;
use crate::operations::ReturnValue;
use crate::vector3vl::Vec3vl;

verus! {

/// One clock step: the stored level toggles and the new level is
/// emitted as a one-bit signal, with the clock flag set so that the
/// scheduler queues the cell again.
pub fn clock(clock_val: &mut bool) -> (r: Result<ReturnValue, CellError>)
    ensures
        *final(clock_val) == !*old(clock_val),
        r is Ok,
        ({
            let rv = r->Ok_0;
            &&& rv.clock
            &&& rv.out is Some
            &&& rv.out->0.bits == 1
            &&& rv.out->0.well_formed()
            &&& rv.out->0.tri_at(0) == (if *old(clock_val) { -1i32 } else { 1i32 })
        }),
{
    *clock_val = !*clock_val;
    ReturnValue::clock(Vec3vl::make_bool(1, *clock_val))
}

/// A constant cell: emits its stored value.
pub fn constant(value: &Vec3vl) -> (r: Result<ReturnValue, CellError>)
    ensures
        r is Ok,
        ({
            let rv = r->Ok_0;
            &&& !rv.clock
            &&& rv.out is Some
            &&& rv.out->0@ == value@
        }),
{
    ReturnValue::out(value.clone())
}

} // verus!
