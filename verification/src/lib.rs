//! Checksums over the 32-symbol bech32 alphabet.
//!
//! A string such as `bc1q...` is read as a polynomial over GF(32) and
//! reduced modulo the generator of a BCH code. The residue, plus a target
//! that belongs to the code, is the checksum that is appended to the string;
//! a string is valid when its residue is the target.
//!
//! - [`gf32`]: the arithmetic of the field, and its laws.
//! - [`alphabet`]: the characters that name the field elements.
//! - [`hrp`]: strings with a human-readable part, and their expansion.
//! - [`base32`]: field elements and strings of them as values.
//! - [`packing`]: the bits of a string of elements, as bytes.
//! - [`polymod`]: the register that computes residues, and why it is linear.
//! - [`checksum32`]: codes, checksums, validation, and the table of codes.
//! - [`laws`]: what holds of the checksums of whole strings.
//! - [`text`]: comparing strings, folding case, writing hexadecimal.
//! - [`cli`]: the commands `sum`, `validate`, `to_hrp_u5` and `to_hrp_hex`.

pub mod alphabet;
pub mod base32;
pub mod checksum32;
pub mod cli;
pub mod gf32;
pub mod hrp;
pub mod laws;
pub mod packing;
pub mod polymod;
pub mod text;
