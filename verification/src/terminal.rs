use vstd::prelude::*;
use crate::strutil::seq_contains_str;
use crate::strutil::vec_contains;

verus! {

/// The terminal emulator to use: the one the environment names when it is
/// available, else the first available of the common emulators, in order.
/// `available` holds the command names the caller found on the search
/// path.
pub open spec fn spec_find_terminal(env_term: Option<Seq<char>>, available: Seq<String>) -> Option<
    Seq<char>,
> {
    match env_term {
        Some(t) if seq_contains_str(available, t) => Some(t),
        _ => {
            if seq_contains_str(available, "x-terminal-emulator"@) {
                Some("x-terminal-emulator"@)
            } else if seq_contains_str(available, "gnome-terminal"@) {
                Some("gnome-terminal"@)
            } else if seq_contains_str(available, "konsole"@) {
                Some("konsole"@)
            } else if seq_contains_str(available, "xterm"@) {
                Some("xterm"@)
            } else {
                None
            }
        },
    }
}

/// Picks a usable terminal emulator command.
pub fn find_terminal(env_term: &Option<String>, available: &Vec<String>) -> (r: Option<String>)
    ensures
        ({
            let env = match env_term {
                Some(t) => Some(t@),
                None => None,
            };
            match r {
                Some(t) => spec_find_terminal(env, available@) == Some(t@),
                None => spec_find_terminal(env, available@) is None,
            }
        }),
{
    match env_term {
        Some(t) => {
            if vec_contains(available, t.as_str()) {
                return Some(t.clone());
            }
        },
        None => {},
    }
    if vec_contains(available, "x-terminal-emulator") {
        Some(String::from_str("x-terminal-emulator"))
    } else if vec_contains(available, "gnome-terminal") {
        Some(String::from_str("gnome-terminal"))
    } else if vec_contains(available, "konsole") {
        Some(String::from_str("konsole"))
    } else if vec_contains(available, "xterm") {
        Some(String::from_str("xterm"))
    } else {
        None
    }
}

/// Whether any terminal emulator is available.
pub fn terminal_available(env_term: &Option<String>, available: &Vec<String>) -> (r: bool)
    ensures
        r == (spec_find_terminal(
            match env_term {
                Some(t) => Some(t@),
                None => None,
            },
            available@,
        ) is Some),
{
    find_terminal(env_term, available).is_some()
}

} // verus!
