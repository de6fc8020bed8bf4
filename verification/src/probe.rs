use vstd::prelude::*;

verus! {

/// What the host's header-only inspection of a media container yields
/// for its first track: the frame count and the time base (numerator,
/// denominator), each only if the container states it.
///
/// The container parse itself runs at the host's edge, outside the
/// library: a hostile header can make the parser abort, so the library
/// takes only the plain values that came out of it. Every contract
/// below holds for whatever parameters the host hands in.
#[derive(Clone, Copy)]
pub struct ProbeParams {
    pub n_frames: Option<u64>,
    pub time_base: Option<(u32, u32)>,
}

/// The duration in whole seconds (truncated, not rounded) that the
/// probe derives from a track's parameters: frame count times the time
/// base, with a missing frame count read as zero frames. There is no
/// result when the container was not recognized (`probed` is `None`),
/// states no time base, has a degenerate time base, or the duration
/// does not fit an `i32`.
pub open spec fn spec_probed_duration(probed: Option<ProbeParams>) -> Option<i32> {
    match probed {
        None => None,
        Some(params) => match params.time_base {
            None => None,
            Some((numer, denom)) => {
                if numer == 0 || denom == 0 {
                    None
                } else {
                    let frames: int = match params.n_frames {
                        Some(f) => f as int,
                        None => 0,
                    };
                    let secs = (frames * numer) / (denom as int);
                    if secs <= i32::MAX {
                        Some(secs as i32)
                    } else {
                        None
                    }
                }
            },
        },
    }
}

/// Compute the playback duration in whole seconds from probed container
/// parameters. A `None` outcome is the non-fatal "probe failure":
/// callers leave the duration unset.
pub fn duration_from_params(probed: Option<ProbeParams>) -> (r: Option<i32>)
    ensures
        r == spec_probed_duration(probed),
{
    match probed {
        None => None,
        Some(params) => match params.time_base {
            None => None,
            Some((numer, denom)) => {
                if numer == 0 || denom == 0 {
                    None
                } else {
                    let frames: u64 = match params.n_frames {
                        Some(f) => f,
                        None => 0,
                    };
                    proof {
                        assert((frames as int) * (numer as int) <= u128::MAX) by (nonlinear_arith)
                            requires
                                0 <= frames <= u64::MAX,
                                0 <= numer <= u32::MAX,
                        ;
                    }
                    let secs: u128 = (frames as u128) * (numer as u128) / (denom as u128);
                    if secs <= i32::MAX as u128 {
                        Some(secs as i32)
                    } else {
                        None
                    }
                }
            },
        },
    }
}

} // verus!
