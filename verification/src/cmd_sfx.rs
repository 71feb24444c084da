//! What the `sfx` command settles before it renders anything.
//!
//! The command reads its arguments, its input and writes its output
//! elsewhere. The rules by which it picks an input, a sample rate and a buffer
//! size are here, on plain values.

use vstd::prelude::*;

verus! {

/// The sample rate, in Hz, where none is asked for.
pub const DEFAULT_SAMPLE_RATE: u32 = 48000;

/// The lowest sample rate, in Hz.
pub const MIN_SAMPLE_RATE: u32 = 8000;

/// The highest sample rate, in Hz.
pub const MAX_SAMPLE_RATE: u32 = 192000;

/// The size of the render buffer where none is asked for.
pub const DEFAULT_BUFFER_SIZE: usize = 1024;

/// The smallest render buffer.
pub const MIN_BUFFER_SIZE: usize = 32;

/// The largest render buffer.
pub const MAX_BUFFER_SIZE: usize = 8192;

/// Why a sample rate is refused.
#[derive(Debug, Clone, Copy, PartialEq, Eq, Structural)]
pub enum RateError {
    /// The rate is below [`MIN_SAMPLE_RATE`].
    TooLow,
    /// The rate is above [`MAX_SAMPLE_RATE`].
    TooHigh,
}

/// The sample rate that `sample_rate` settles on: the default where none is
/// asked for, and an error for a rate outside the accepted range.
pub open spec fn settled_rate(requested: Option<u32>) -> Result<u32, RateError> {
    match requested {
        None => Ok(DEFAULT_SAMPLE_RATE),
        Some(rate) => if rate < MIN_SAMPLE_RATE {
            Err(RateError::TooLow)
        } else if rate > MAX_SAMPLE_RATE {
            Err(RateError::TooHigh)
        } else {
            Ok(rate)
        },
    }
}

/// The sample rate to render at.
///
/// A rate outside the accepted range is an error: it is not changed to one
/// that would do.
pub fn sample_rate(requested: Option<u32>) -> (r: Result<u32, RateError>)
    ensures
        r == settled_rate(requested),
{
    match requested {
        Some(rate) => {
            if rate < MIN_SAMPLE_RATE {
                Err(RateError::TooLow)
            } else if rate > MAX_SAMPLE_RATE {
                Err(RateError::TooHigh)
            } else {
                Ok(rate)
            }
        },
        None => Ok(DEFAULT_SAMPLE_RATE),
    }
}

/// What was wrong with the buffer size that was asked for.
#[derive(Debug, Clone, Copy, PartialEq, Eq, Structural)]
pub enum BufferWarning {
    /// It was below [`MIN_BUFFER_SIZE`].
    TooLow,
    /// It was above [`MAX_BUFFER_SIZE`].
    TooHigh,
    /// It was no power of two.
    NotPowerOfTwo,
}

/// The buffer size to render with, and what the user is to be warned of.
#[derive(Debug, Clone, Copy, PartialEq, Eq, Structural)]
pub struct BufferSize {
    pub size: usize,
    pub warning: Option<BufferWarning>,
}

/// True if `n` is a power of two.
pub open spec fn is_power_of_two(n: int) -> bool
    decreases n,
{
    n == 1 || (n > 1 && n % 2 == 0 && is_power_of_two(n / 2))
}

/// The least power of two that is at least `n`, found from the power of two
/// `from` upwards.
pub open spec fn power_of_two_from(n: int, from: int) -> int
    decreases
        (if from < n {
            n - from
        } else {
            0
        }),
{
    if 0 < from < n {
        power_of_two_from(n, 2 * from)
    } else {
        from
    }
}

/// The least power of two that is at least `n`.
pub open spec fn next_power_of_two(n: int) -> int {
    power_of_two_from(n, 1)
}

/// The size that `buffer_size` settles on.
pub open spec fn settled_size(requested: Option<usize>) -> int {
    match requested {
        None => DEFAULT_BUFFER_SIZE as int,
        Some(size) => if size < MIN_BUFFER_SIZE {
            MIN_BUFFER_SIZE as int
        } else if size > MAX_BUFFER_SIZE {
            MAX_BUFFER_SIZE as int
        } else {
            next_power_of_two(size as int)
        },
    }
}

/// The warning that `buffer_size` gives.
pub open spec fn settled_warning(requested: Option<usize>) -> Option<BufferWarning> {
    match requested {
        None => None,
        Some(size) => if size < MIN_BUFFER_SIZE {
            Some(BufferWarning::TooLow)
        } else if size > MAX_BUFFER_SIZE {
            Some(BufferWarning::TooHigh)
        } else if next_power_of_two(size as int) != size {
            Some(BufferWarning::NotPowerOfTwo)
        } else {
            None
        },
    }
}

/// Doubling finds the same power of two from any power of two below `n`.
proof fn lemma_power_of_two_from(n: int, from: int)
    requires
        0 < from,
        is_power_of_two(from),
        from < 2 * n,
    ensures
        is_power_of_two(power_of_two_from(n, from)),
        power_of_two_from(n, from) >= n,
        power_of_two_from(n, from) >= from,
        from < n ==> power_of_two_from(n, from) < 2 * n,
    decreases
        (if from < n {
            n - from
        } else {
            0
        }),
{
    if from < n {
        lemma_power_of_two_from(n, 2 * from);
    }
}

/// The next power of two is a power of two, is at least `n`, and is less than
/// twice `n`.
pub proof fn lemma_next_power_of_two(n: int)
    requires
        n >= 1,
    ensures
        is_power_of_two(next_power_of_two(n)),
        n <= next_power_of_two(n) < 2 * n,
{
    lemma_power_of_two_from(n, 1);
}

/// The buffer size to render with.
///
/// A size outside the accepted range is replaced by the nearest end of the
/// range, and a size that is no power of two by the next power of two.
/// Either comes with a warning.
pub fn buffer_size(requested: Option<usize>) -> (r: BufferSize)
    ensures
        r.size == settled_size(requested),
        r.warning == settled_warning(requested),
        MIN_BUFFER_SIZE <= r.size <= MAX_BUFFER_SIZE,
        is_power_of_two(r.size as int),
{
    proof {
        reveal_with_fuel(is_power_of_two, 16);
    }
    match requested {
        None => BufferSize { size: DEFAULT_BUFFER_SIZE, warning: None },
        Some(size) => {
            if size < MIN_BUFFER_SIZE {
                BufferSize { size: MIN_BUFFER_SIZE, warning: Some(BufferWarning::TooLow) }
            } else if size > MAX_BUFFER_SIZE {
                BufferSize { size: MAX_BUFFER_SIZE, warning: Some(BufferWarning::TooHigh) }
            } else {
                let mut power: usize = 1;
                while power < size
                    invariant
                        0 < power <= MAX_BUFFER_SIZE,
                        size <= MAX_BUFFER_SIZE,
                        power < 2 * size,
                        is_power_of_two(power as int),
                        power_of_two_from(size as int, power as int) == next_power_of_two(
                            size as int,
                        ),
                    decreases MAX_BUFFER_SIZE - power,
                {
                    proof {
                        lemma_power_of_two_from(size as int, power as int);
                        lemma_power_of_two_bound(power as int);
                    }
                    power = 2 * power;
                }
                BufferSize {
                    size: power,
                    warning: if power != size {
                        Some(BufferWarning::NotPowerOfTwo)
                    } else {
                        None
                    },
                }
            }
        },
    }
}

/// A power of two below 8192 is at most 4096.
proof fn lemma_power_of_two_bound(power: int)
    requires
        is_power_of_two(power),
        0 < power < 8192,
    ensures
        2 * power <= 8192,
{
    reveal_with_fuel(is_power_of_two, 16);
}

/// Where the input comes from.
#[derive(Debug, Clone, Copy, PartialEq, Eq, Structural)]
pub enum InputKind {
    /// A file that is named as an argument.
    File,
    /// A script that is given in full as an argument.
    Script,
}

/// Why the arguments name no input.
#[derive(Debug, Clone, Copy, PartialEq, Eq, Structural)]
pub enum InputError {
    /// Both a file and a script are given.
    Both,
    /// Neither a file nor a script is given.
    Neither,
}

/// The input that `select_input` picks.
pub open spec fn selected_input(has_file: bool, has_script: bool) -> Result<InputKind, InputError> {
    if has_file && has_script {
        Err(InputError::Both)
    } else if has_file {
        Ok(InputKind::File)
    } else if has_script {
        Ok(InputKind::Script)
    } else {
        Err(InputError::Neither)
    }
}

/// Picks the input: the file or the script, whichever is given alone.
pub fn select_input(has_file: bool, has_script: bool) -> (r: Result<InputKind, InputError>)
    ensures
        r == selected_input(has_file, has_script),
{
    if has_file {
        if has_script {
            Err(InputError::Both)
        } else {
            Ok(InputKind::File)
        }
    } else if has_script {
        Ok(InputKind::Script)
    } else {
        Err(InputError::Neither)
    }
}

/// Where the wave file goes.
#[derive(Debug, Clone, Copy, PartialEq, Eq, Structural)]
pub enum WaveTarget {
    /// No wave file is written.
    Nowhere,
    /// To the file that the arguments name.
    Named,
    /// To the input file's name with the extension `wav`.
    BesideInput,
    /// To the default file in the current directory.
    Default,
}

/// The place that `wave_target` decides on, or `None` where it refuses.
pub open spec fn decided_target(
    named: bool,
    write_wave: bool,
    input: InputKind,
    input_is_wave: bool,
) -> Option<WaveTarget> {
    if named {
        Some(WaveTarget::Named)
    } else if !write_wave {
        Some(WaveTarget::Nowhere)
    } else if input == InputKind::Script {
        Some(WaveTarget::Default)
    } else if input_is_wave {
        None
    } else {
        Some(WaveTarget::BesideInput)
    }
}

/// Decides where the wave file goes.
///
/// A name that is given wins. Otherwise, if a wave file is asked for, it goes
/// beside the input file, or to a default name for a script. An input file
/// that is itself a `wav` file would be overwritten: that is refused.
pub fn wave_target(named: bool, write_wave: bool, input: InputKind, input_is_wave: bool) -> (r:
    Option<WaveTarget>)
    ensures
        r == decided_target(named, write_wave, input, input_is_wave),
{
    if named {
        Some(WaveTarget::Named)
    } else if !write_wave {
        Some(WaveTarget::Nowhere)
    } else {
        match input {
            InputKind::Script => Some(WaveTarget::Default),
            InputKind::File => if input_is_wave {
                None
            } else {
                Some(WaveTarget::BesideInput)
            },
        }
    }
}

} // verus!
