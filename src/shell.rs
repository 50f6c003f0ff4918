//! What a persistent shell is started with: its program, its completion
//! marker, and the loop it runs.

use crate::framing::{EndBytes, RAND_STRING_SIZE};
use crate::text::push_char;
use rand::distributions::{Alphanumeric, DistString};
use vstd::prelude::*;
use vstd::string::*;

verus! {

/// An ASCII letter or digit: `0`-`9`, `A`-`Z` or `a`-`z`.
pub open spec fn is_alphanumeric(b: u8) -> bool {
    (48 <= b <= 57) || (65 <= b <= 90) || (97 <= b <= 122)
}

/// Relies on rand's `Alphanumeric::sample_string` drawing from
/// `thread_rng`: a string of `len` characters, each an ASCII letter or digit.
#[verifier::external_body]
fn sample_alphanumeric(len: usize) -> (r: Vec<u8>)
    ensures
        r@.len() == len,
        forall|i: int| 0 <= i < r@.len() ==> is_alphanumeric(#[trigger] r@[i]),
{
    Alphanumeric.sample_string(&mut rand::thread_rng(), len).into_bytes()
}

/// The marker made of the first `RAND_STRING_SIZE` bytes of `sample`.
pub fn end_bytes_from(sample: &Vec<u8>) -> (r: EndBytes)
    requires
        sample@.len() == RAND_STRING_SIZE,
    ensures
        r@ == sample@,
{
    let mut end_bytes: EndBytes = [0u8; RAND_STRING_SIZE];
    let mut i: usize = 0;
    while i < RAND_STRING_SIZE
        invariant
            i <= RAND_STRING_SIZE,
            sample@.len() == RAND_STRING_SIZE,
            end_bytes@.len() == RAND_STRING_SIZE,
            forall|j: int| 0 <= j < i ==> end_bytes@[j] == sample@[j],
        decreases RAND_STRING_SIZE - i,
    {
        end_bytes[i] = sample[i];
        i += 1;
    }
    assert(end_bytes@ =~= sample@);
    end_bytes
}

/// A fresh random completion marker, made of ASCII letters and digits, so
/// that the shell prints it as it stands and it holds no zero byte.
pub fn generate_end_bytes() -> (r: EndBytes)
    ensures
        forall|i: int| 0 <= i < RAND_STRING_SIZE ==> is_alphanumeric(#[trigger] r@[i]),
{
    let sample = sample_alphanumeric(RAND_STRING_SIZE);
    let end_bytes = end_bytes_from(&sample);
    assert forall|i: int| 0 <= i < RAND_STRING_SIZE implies is_alphanumeric(
        #[trigger] end_bytes@[i],
    ) by {
        assert(end_bytes@[i] == sample@[i]);
    }
    end_bytes
}

/// The marker's bytes as characters.
pub open spec fn marker_chars(end_bytes: Seq<u8>) -> Seq<char> {
    end_bytes.map_values(|b: u8| b as char)
}

/// The loop that a persistent shell runs: read one line, evaluate it, print
/// the marker to stdout and then to stderr, and start over.
pub open spec fn supervisor_script_of(marker: Seq<char>) -> Seq<char> {
    "while true; do read line; eval \"$line\"; printf "@ + marker + "; printf "@ + marker
        + " >&2; done"@
}

/// The script that a persistent shell with this marker is started with.
pub fn supervisor_script(end_bytes: &EndBytes) -> (r: String)
    ensures
        r@ == supervisor_script_of(marker_chars(end_bytes@)),
{
    let mut marker = String::new();
    let mut i: usize = 0;
    while i < RAND_STRING_SIZE
        invariant
            i <= RAND_STRING_SIZE,
            end_bytes@.len() == RAND_STRING_SIZE,
            marker@ == marker_chars(end_bytes@.subrange(0, i as int)),
        decreases RAND_STRING_SIZE - i,
    {
        push_char(&mut marker, end_bytes[i] as char);
        assert(marker_chars(end_bytes@.subrange(0, i + 1)) =~= marker_chars(
            end_bytes@.subrange(0, i as int),
        ).push(end_bytes@[i as int] as char));
        i += 1;
    }
    assert(end_bytes@.subrange(0, RAND_STRING_SIZE as int) =~= end_bytes@);
    let mut script = String::from_str("while true; do read line; eval \"$line\"; printf ");
    script.append(marker.as_str());
    script.append("; printf ");
    script.append(marker.as_str());
    script.append(" >&2; done");
    script
}

/// The shell program to start: the one configured, else the one the
/// environment names, else `dash`.
pub fn choose_shell(configured: Option<String>, from_environment: Option<String>) -> (r: String)
    ensures
        r@ == match configured {
            Some(s) => s@,
            None => match from_environment {
                Some(e) => e@,
                None => "dash"@,
            },
        },
{
    match configured {
        Some(s) => s,
        None => match from_environment {
            Some(e) => e,
            None => String::from_str("dash"),
        },
    }
}

} // verus!
