//! The command surface: an action, the name of a code, and a string.
//!
//! The string is folded to lower case before anything reads it, so that an
//! upper-case string is taken as its lower-case form.

use crate::base32::{invalid_char_message, u5String};
use crate::checksum32::{find_checksum, lookup, Code};
use crate::hrp::parse_hrp;
use crate::packing::{packed_whole, whole_len};
use crate::text::{hex_list, hex_of, str_eq, to_hex, to_hex_list, to_lower, to_lowercase};
use vstd::prelude::*;

verus! {

/// Why a command gave no output.
#[derive(Debug, PartialEq, Eq)]
pub enum Failure {
    /// The table holds no code of that name.
    UnknownChecksum,
    /// The action is none of the four.
    UnknownAction,
    /// The string does not parse; the text names the character.
    InvalidInput(String),
}

/// What a command comes to.
pub enum Outcome {
    /// The text to print.
    Output(Seq<char>),
    /// The table holds no code of that name.
    UnknownChecksum,
    /// The action is none of the four.
    UnknownAction,
    /// The data part of the string holds this character, which is not in
    /// the alphabet.
    InvalidInput(char),
}

/// What the action does with a string that parsed to `message`.
pub open spec fn outcome_of_parsed(
    action: Seq<char>,
    code: Code,
    text: Seq<char>,
    message: Seq<u8>,
) -> Outcome {
    if action == "to_hrp_u5"@ {
        Outcome::Output(hex_list(message))
    } else if action == "to_hrp_hex"@ {
        Outcome::Output(hex_of(packed_whole(message)))
    } else if action == "sum"@ {
        Outcome::Output(text + code.checksum_chars(text))
    } else if code.validates(text) {
        Outcome::Output("OK"@)
    } else {
        Outcome::Output("BAD"@)
    }
}

/// Whether `action` is one of the four actions.
pub open spec fn is_action(action: Seq<char>) -> bool {
    action == "to_hrp_u5"@ || action == "to_hrp_hex"@ || action == "sum"@ || action
        == "validate"@
}

/// What the command comes to: the name is looked up first, then the action,
/// and the string is parsed last.
pub open spec fn outcome(action: Seq<char>, name: Seq<char>, s: Seq<char>) -> Outcome {
    let text = to_lower(s);
    match lookup(name) {
        None => Outcome::UnknownChecksum,
        Some(code) => if !is_action(action) {
            Outcome::UnknownAction
        } else {
            match parse_hrp(text) {
                Ok(message) => outcome_of_parsed(action, code, text, message),
                Err(c) => Outcome::InvalidInput(c),
            }
        },
    }
}

/// Whether the result `r` is what the outcome `o` asks for.
pub open spec fn agrees(r: Result<String, Failure>, o: Outcome) -> bool {
    match o {
        Outcome::Output(text) => r matches Ok(out) && out@ == text,
        Outcome::UnknownChecksum => r matches Err(Failure::UnknownChecksum),
        Outcome::UnknownAction => r matches Err(Failure::UnknownAction),
        Outcome::InvalidInput(c) => r matches Err(Failure::InvalidInput(e)) && e@
            == invalid_char_message(c),
    }
}

/// Runs one command: `sum` appends the checksum, `validate` answers `OK` or
/// `BAD`, `to_hrp_u5` lists the parsed elements, `to_hrp_hex` gives in
/// hexadecimal the bytes that their bits fill.
pub fn real_main(action_s: &str, checksum_s: &str, s: &str) -> (r: Result<String, Failure>)
    ensures
        agrees(r, outcome(action_s@, checksum_s@, s@)),
{
    let checksum = match find_checksum(checksum_s) {
        Some(c) => c,
        None => {
            return Err(Failure::UnknownChecksum);
        },
    };
    let to_u5 = str_eq(action_s, "to_hrp_u5");
    let to_hex_bytes = str_eq(action_s, "to_hrp_hex");
    let sum = str_eq(action_s, "sum");
    let validate = str_eq(action_s, "validate");
    if !(to_u5 || to_hex_bytes || sum || validate) {
        return Err(Failure::UnknownAction);
    }
    let folded = to_lowercase(s);
    let text = folded.as_str();
    let input = match u5String::from_hrpstring(text) {
        Ok(inp) => inp,
        Err(e) => {
            return Err(Failure::InvalidInput(e));
        },
    };
    if to_u5 {
        let n: usize = input.len();
        let mut values: Vec<u8> = Vec::new();
        let mut i: usize = 0;
        while i < n
            invariant
                n == input@.len(),
                0 <= i <= n,
                values@ == input@.take(i as int),
            decreases n - i,
        {
            values.push(input[i].to_u8());
            assert(input@.take(i as int).push(input@[i as int]) == input@.take(i + 1));
            i += 1;
        }
        assert(input@.take(n as int) == input@);
        Ok(to_hex_list(&values))
    } else if to_hex_bytes {
        // A last byte that the bits do not fill is not shown.
        let n: usize = input.len();
        let whole: usize = n / 8 * 5 + (n % 8) * 5 / 8;
        assert(whole == whole_len(n as nat));
        let mut bytes = input.to_bytes();
        bytes.truncate(whole);
        Ok(to_hex(&bytes))
    } else if sum {
        Ok(checksum.checksum(text))
    } else if checksum.validate_checksum(text) {
        Ok(String::from_str("OK"))
    } else {
        Ok(String::from_str("BAD"))
    }
}

} // verus!
