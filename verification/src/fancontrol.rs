//! Software fan control: each control cycle decides, per fan and from its mode, which
//! PWM value to write.
use vstd::prelude::*;

verus! {

/// How the user wants a fan driven.
#[derive(Clone, Copy, Debug, PartialEq, Eq, Structural)]
pub enum FanMode {
    /// Software curve: the default curve of the CPU or GPU.
    Auto,
    /// A fixed speed chosen by the user.
    Manual,
    /// Full speed.
    Max,
    /// The user's own curve.
    Curve,
}

/// `pct` clamped to 0..100.
pub open spec fn clamp_pct(pct: i32) -> int {
    if pct < 0 {
        0
    } else if pct > 100 {
        100
    } else {
        pct as int
    }
}

/// The PWM value (0-255) for a speed in percent: the percentage clamped to 0..100,
/// times 2.55, rounded. The binary value of 2.55 lies just under 2.55, so the products
/// for 50 % and 90 % fall just under a half and round down; every other product
/// rounds half up.
pub open spec fn pct_to_pwm_spec(pct: i32) -> int {
    let p = clamp_pct(pct);
    let up = (255 * p + 50) / 100;
    if p == 50 || p == 90 {
        up - 1
    } else {
        up
    }
}

pub fn pct_to_pwm(pct: i32) -> (v: i32)
    ensures
        v == pct_to_pwm_spec(pct),
        0 <= v <= 255,
{
    let p: i32 = if pct < 0 {
        0
    } else if pct > 100 {
        100
    } else {
        pct
    };
    let up = (255 * p + 50) / 100;
    if p == 50 || p == 90 {
        up - 1
    } else {
        up
    }
}

/// What a control cycle does with one fan.
#[derive(Clone, Copy, Debug, PartialEq, Eq, Structural)]
pub enum FanStep {
    /// Write this PWM value.
    Write(i32),
    /// Write the PWM of the user's curve at the fan's temperature.
    FollowCurve,
    /// Write the PWM of the default GPU curve at the GPU temperature.
    GpuDefault,
    /// Write the PWM of the default CPU curve at the CPU temperature.
    CpuDefault,
    /// Leave the fan as it is.
    Leave,
}

/// The step for a fan: Manual writes the user's speed, Max writes 255; Curve follows
/// the user's curve when it has points and the fan's source (GPU or CPU) reads a
/// positive temperature; Auto follows the default curve of the GPU or CPU when that
/// source reads a positive temperature; otherwise the fan is left alone.
pub open spec fn fan_step_spec(
    mode: FanMode,
    manual_pct: i32,
    is_gpu: bool,
    curve_points: nat,
    cpu_temp_positive: bool,
    gpu_temp_positive: bool,
) -> FanStep {
    let source_positive = if is_gpu {
        gpu_temp_positive
    } else {
        cpu_temp_positive
    };
    match mode {
        FanMode::Manual => FanStep::Write(pct_to_pwm_spec(manual_pct) as i32),
        FanMode::Max => FanStep::Write(255),
        FanMode::Curve => if source_positive && curve_points > 0 {
            FanStep::FollowCurve
        } else {
            FanStep::Leave
        },
        FanMode::Auto => if is_gpu {
            if gpu_temp_positive {
                FanStep::GpuDefault
            } else {
                FanStep::Leave
            }
        } else {
            if cpu_temp_positive {
                FanStep::CpuDefault
            } else {
                FanStep::Leave
            }
        },
    }
}

pub fn fan_step(
    mode: FanMode,
    manual_pct: i32,
    is_gpu: bool,
    curve_points: usize,
    cpu_temp_positive: bool,
    gpu_temp_positive: bool,
) -> (s: FanStep)
    ensures
        s == fan_step_spec(mode, manual_pct, is_gpu, curve_points as nat, cpu_temp_positive, gpu_temp_positive),
{
    let source_positive = if is_gpu {
        gpu_temp_positive
    } else {
        cpu_temp_positive
    };
    match mode {
        FanMode::Manual => FanStep::Write(pct_to_pwm(manual_pct)),
        FanMode::Max => FanStep::Write(255),
        FanMode::Curve => {
            if source_positive && curve_points > 0 {
                FanStep::FollowCurve
            } else {
                FanStep::Leave
            }
        },
        FanMode::Auto => {
            if is_gpu {
                if gpu_temp_positive {
                    FanStep::GpuDefault
                } else {
                    FanStep::Leave
                }
            } else {
                if cpu_temp_positive {
                    FanStep::CpuDefault
                } else {
                    FanStep::Leave
                }
            }
        },
    }
}

/// Every PWM value the control loop writes is in 0..255, and it grows with the
/// requested speed.
pub proof fn law_pwm_in_range_and_monotone(a: i32, b: i32)
    ensures
        0 <= pct_to_pwm_spec(a) <= 255,
        a <= b ==> pct_to_pwm_spec(a) <= pct_to_pwm_spec(b),
{
    let pa = clamp_pct(a);
    let pb = clamp_pct(b);
    assert(0 <= (255 * pa + 50) / 100 <= 255);
    if a <= b {
        assert(pa <= pb);
        assert((255 * pa + 50) / 100 <= (255 * pb + 50) / 100) by (nonlinear_arith)
            requires
                pa <= pb,
        ;
        if pa < pb && (pb == 50 || pb == 90) {
            assert((255 * pa + 50) / 100 <= (255 * pb + 50) / 100 - 1) by (nonlinear_arith)
                requires
                    pa < pb,
                    pb == 50 || pb == 90,
                    0 <= pa,
            ;
        }
    }
}

/// What each mode does, for every fan: Manual writes the PWM of the user's speed and
/// Max writes 255, whether the fan cools the GPU or the CPU and whatever the
/// temperatures; Curve follows the user's curve exactly when it has points and the
/// fan's own source reads a positive temperature; Auto follows the default curve of the
/// fan's own source (GPU or CPU) exactly when that source reads a positive temperature.
/// Nothing else is ever written or left.
pub proof fn law_fan_step_by_mode(
    manual_pct: i32,
    is_gpu: bool,
    curve_points: nat,
    cpu_temp_positive: bool,
    gpu_temp_positive: bool,
)
    ensures
        fan_step_spec(FanMode::Manual, manual_pct, is_gpu, curve_points, cpu_temp_positive, gpu_temp_positive)
            == FanStep::Write(pct_to_pwm_spec(manual_pct) as i32),
        fan_step_spec(FanMode::Max, manual_pct, is_gpu, curve_points, cpu_temp_positive, gpu_temp_positive)
            == FanStep::Write(255),
        (fan_step_spec(FanMode::Curve, manual_pct, is_gpu, curve_points, cpu_temp_positive, gpu_temp_positive)
            == FanStep::FollowCurve) <==> (curve_points > 0 && (if is_gpu {
            gpu_temp_positive
        } else {
            cpu_temp_positive
        })),
        fan_step_spec(FanMode::Curve, manual_pct, is_gpu, curve_points, cpu_temp_positive, gpu_temp_positive)
            == FanStep::FollowCurve || fan_step_spec(
            FanMode::Curve,
            manual_pct,
            is_gpu,
            curve_points,
            cpu_temp_positive,
            gpu_temp_positive,
        ) == FanStep::Leave,
        is_gpu ==> fan_step_spec(FanMode::Auto, manual_pct, is_gpu, curve_points, cpu_temp_positive, gpu_temp_positive)
            == (if gpu_temp_positive {
            FanStep::GpuDefault
        } else {
            FanStep::Leave
        }),
        !is_gpu ==> fan_step_spec(FanMode::Auto, manual_pct, is_gpu, curve_points, cpu_temp_positive, gpu_temp_positive)
            == (if cpu_temp_positive {
            FanStep::CpuDefault
        } else {
            FanStep::Leave
        }),
{
}

/// The PWM for a speed is the speed (clamped to 0..100) times 2.55, rounded to the
/// nearest value: it is within half a step of the exact product, and the ends map to
/// 0 and 255.
pub proof fn law_pwm_is_rounded_percentage(pct: i32)
    ensures
        100 * pct_to_pwm_spec(pct) - 50 <= 255 * clamp_pct(pct) <= 100 * pct_to_pwm_spec(pct) + 50,
        pct <= 0 ==> pct_to_pwm_spec(pct) == 0,
        pct >= 100 ==> pct_to_pwm_spec(pct) == 255,
{
    let p = clamp_pct(pct);
    let up = (255 * p + 50) / 100;
    assert(100 * up <= 255 * p + 50 && 255 * p + 50 < 100 * up + 100) by (nonlinear_arith)
        requires
            up == (255 * p + 50) / 100,
            0 <= p,
    ;
}

} // verus!
