//! Exact decoding of numeric literals and of source positions for a
//! sound-effect description language.
//!
//! The crate has two independent parts. [`number`] turns the text of a numeric
//! literal into its sign, radix, digits and decimal exponent, and converts that
//! to a 64-bit integer without loss. [`sourcetext`] maps byte offsets in a
//! source file to lines and columns, with LF, CR and CRLF line endings.
//!
//! [`sourcepos`] and [`error`] hold the vocabulary that the two share with
//! their callers. [`cmd_sfx`] and [`signal`] hold the rules of the command-line
//! tool and of the signal graph that need no floating-point arithmetic and no
//! input or output.

pub mod cmd_sfx;
pub mod error;
pub mod number;
pub mod signal;
pub mod sourcepos;
pub mod sourcetext;
